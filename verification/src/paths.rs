//! Which files the clip server may touch, and how the recording folder is
//! found and listed.
use vstd::prelude::*;
use crate::state::{clips_view, library_has, ClipEntry, ClipView};
use crate::text::{chars_of, has_prefix, has_suffix, push_char, str_eq, string_of};

verus! {

/// `str::to_lowercase` of a text (Unicode lower case, context-sensitive).
pub uninterp spec fn lowercase(s: Seq<char>) -> Seq<char>;

/// Every character of `s` is ASCII.
pub open spec fn ascii_text(s: Seq<char>) -> bool {
    forall|i: int| 0 <= i < s.len() ==> #[trigger] s[i] <= '\u{7f}'
}

/// `A` to `Z` lowered; any other character kept.
pub open spec fn ascii_lower_char(c: char) -> char {
    if 'A' <= c && c <= 'Z' {
        ((c as u32) + 32) as char
    } else {
        c
    }
}

pub open spec fn ascii_lower(s: Seq<char>) -> Seq<char> {
    Seq::new(s.len(), |i: int| ascii_lower_char(s[i]))
}

/// `str::to_lowercase`: the Unicode lower case of `s`, which for ASCII text
/// lowers `A` to `Z` and keeps every other character.
#[verifier::external_body]
fn to_lowercase(s: &str) -> (res: String)
    ensures
        res@ == lowercase(s@),
        ascii_text(s@) ==> res@ == ascii_lower(s@),
{
    s.to_lowercase()
}

/// `s` with every `/` turned into `\`.
pub open spec fn backslashed(s: Seq<char>) -> Seq<char> {
    Seq::new(s.len(), |i: int| if s[i] == '/' { '\\' } else { s[i] })
}

/// `s` without its trailing `\` characters.
pub open spec fn trim_backslashes(s: Seq<char>) -> Seq<char>
    decreases s.len(),
{
    if s.len() > 0 && s.last() == '\\' {
        trim_backslashes(s.drop_last())
    } else {
        s
    }
}

/// What two directory paths are compared by: separators unified, trailing
/// separators dropped, lower-cased.
pub open spec fn dir_key(p: Seq<char>) -> Seq<char> {
    lowercase(trim_backslashes(backslashed(p)))
}

/// Case- and separator-insensitive directory comparison (Windows paths mix
/// slashes freely).
pub open spec fn same_dir_spec(a: Seq<char>, b: Seq<char>) -> bool {
    dir_key(a) == dir_key(b)
}

fn dir_text(p: &str) -> (res: String)
    ensures
        res@ == trim_backslashes(backslashed(p@)),
{
    let cs = chars_of(p);
    let mut out: Vec<char> = Vec::new();
    let mut i: usize = 0;
    while i < cs.len()
        invariant
            i <= cs@.len(),
            cs@ == p@,
            out@ =~= backslashed(cs@.take(i as int)),
        decreases cs@.len() - i,
    {
        let c = cs[i];
        out.push(if c == '/' { '\\' } else { c });
        i = i + 1;
    }
    assert(cs@.take(cs@.len() as int) =~= cs@);
    let ghost full = out@;
    while out.len() > 0 && out[out.len() - 1] == '\\'
        invariant
            trim_backslashes(out@) == trim_backslashes(full),
        decreases out@.len(),
    {
        out.pop();
    }
    string_of(&out)
}

/// Dropping trailing separators keeps a beginning of the text.
proof fn lemma_trim_backslashes(s: Seq<char>)
    ensures
        trim_backslashes(s).len() <= s.len(),
        forall|i: int| 0 <= i < trim_backslashes(s).len() ==> #[trigger] trim_backslashes(s)[i] == s[i],
    decreases s.len(),
{
    if s.len() > 0 && s.last() == '\\' {
        lemma_trim_backslashes(s.drop_last());
    }
}

/// The compared form of an ASCII path is ASCII.
proof fn lemma_dir_text_ascii(p: Seq<char>)
    requires
        ascii_text(p),
    ensures
        ascii_text(trim_backslashes(backslashed(p))),
{
    let b = backslashed(p);
    assert(ascii_text(b));
    lemma_trim_backslashes(b);
    let t = trim_backslashes(b);
    assert forall|i: int| 0 <= i < t.len() implies #[trigger] t[i] <= '\u{7f}' by {
        assert(t[i] == b[i]);
    }
}

/// Whether `a` and `b` name the same directory. For ASCII paths the case
/// that is ignored is that of `A` to `Z`.
pub fn same_dir(a: &str, b: &str) -> (res: bool)
    ensures
        res == same_dir_spec(a@, b@),
        ascii_text(a@) && ascii_text(b@) ==> (res <==> ascii_lower(trim_backslashes(backslashed(a@)))
            == ascii_lower(trim_backslashes(backslashed(b@)))),
{
    proof {
        if ascii_text(a@) {
            lemma_dir_text_ascii(a@);
        }
        if ascii_text(b@) {
            lemma_dir_text_ascii(b@);
        }
    }
    let ka = to_lowercase(dir_text(a).as_str());
    let kb = to_lowercase(dir_text(b).as_str());
    ka == kb
}

/// Directory comparison is an equivalence: every path names the same
/// directory as itself, in either order, and through a third.
pub proof fn law_same_dir_equivalence(a: Seq<char>, b: Seq<char>, c: Seq<char>)
    ensures
        same_dir_spec(a, a),
        same_dir_spec(a, b) ==> same_dir_spec(b, a),
        same_dir_spec(a, b) && same_dir_spec(b, c) ==> same_dir_spec(a, c),
{
}

/// A trailing separator of either kind, and the kind of each separator, do
/// not change which directory a path names.
pub proof fn law_same_dir_ignores_separators(a: Seq<char>)
    ensures
        same_dir_spec(a, a.push('\\')),
        same_dir_spec(a, a.push('/')),
        same_dir_spec(a, backslashed(a)),
{
    assert(backslashed(a.push('\\')) =~= backslashed(a).push('\\'));
    assert(backslashed(a.push('/')) =~= backslashed(a).push('\\'));
    assert(backslashed(a.push('/')).drop_last() =~= backslashed(a));
    assert(backslashed(a.push('\\')).drop_last() =~= backslashed(a));
    assert(backslashed(backslashed(a)) =~= backslashed(a));
}

/// Where the last `.` of `s` stands, if it has one.
pub open spec fn last_dot(s: Seq<char>) -> Option<int>
    decreases s.len(),
{
    if s.len() == 0 {
        None
    } else if s.last() == '.' {
        Some(s.len() - 1)
    } else {
        last_dot(s.drop_last())
    }
}

/// The extension of a file name, as `Path::extension` documents it: the
/// part after the final `.`; none when the name has no `.`, or only a
/// leading one.
pub open spec fn extension_of(name: Seq<char>) -> Option<Seq<char>> {
    match last_dot(name) {
        Some(i) => if i > 0 {
            Some(name.skip(i + 1))
        } else {
            None
        },
        None => None,
    }
}

/// What is known of `Path::extension` on every platform: for a name of one
/// relative component (other than `.` and `..`), and for a path read as
/// `a/b` (see `two_components`), it is the extension of that last component.
pub open spec fn extension_facts(path: Seq<char>, ext: Option<Seq<char>>) -> bool {
    &&& plain_component(path) && path != "."@ && path != ".."@ ==> ext == extension_of(path)
    &&& component_split(path) is Some ==> ext == extension_of(
        path.skip(component_split(path)->0 + 1),
    )
}

/// `std::path::Path::extension`, as text. How a path splits into components
/// depends on the platform, so the clause fixes the result only where every
/// platform agrees (see `extension_facts`).
#[verifier::external_body]
fn path_extension(path: &str) -> (res: Option<String>)
    ensures
        extension_facts(path@, opt_string_view(res)),
{
    match std::path::Path::new(path).extension() {
        Some(e) => match e.to_str() {
            Some(t) => Some(t.to_owned()),
            None => None,
        },
        None => None,
    }
}

/// `path` reads alike on every platform: no `\\`, no drive colon, and no
/// `//` at its start.
pub open spec fn portable_path(path: Seq<char>) -> bool {
    &&& forall|i: int| 0 <= i < path.len() ==> #[trigger] path[i] != '\\' && path[i] != ':'
    &&& !has_prefix(path, seq!['/', '/'])
}

/// `path` is `a/b`, split at its last `/` (at `k`), in a form every
/// platform reads alike: `b` is one component other than `.` and `..`,
/// and `a` is empty (the root) or ends in a component of its own (not in
/// `/` or `/.`).
pub open spec fn two_components(path: Seq<char>, k: int) -> bool {
    &&& 0 <= k < path.len() - 1
    &&& path[k] == '/'
    &&& portable_path(path)
    &&& plain_component(path.skip(k + 1))
    &&& path.skip(k + 1) != "."@
    &&& path.skip(k + 1) != ".."@
    &&& k > 0 ==> path[k - 1] != '/' && !has_suffix(path.take(k), seq!['/', '.'])
}

/// The parent of a path split as `a/b` at `k`: `a`, or the root `/` when
/// `a` is empty.
pub open spec fn parent_at(path: Seq<char>, k: int) -> Seq<char> {
    if k == 0 {
        seq!['/']
    } else {
        path.take(k)
    }
}

/// Where `path` splits as `a/b` (see `two_components`), if it does.
pub open spec fn component_split(path: Seq<char>) -> Option<int> {
    if exists|k: int| two_components(path, k) {
        Some(choose|k: int| two_components(path, k))
    } else {
        None
    }
}

/// A path splits as `a/b` in one place at most.
pub proof fn lemma_component_split(path: Seq<char>, k: int)
    requires
        two_components(path, k),
    ensures
        component_split(path) == Some(k),
{
    let m = choose|m: int| two_components(path, m);
    assert(two_components(path, m));
    if m < k {
        assert(path.skip(m + 1)[k - m - 1] == '/');
    } else if m > k {
        assert(path.skip(k + 1)[m - k - 1] == '/');
    }
}

/// What is known of `Path::parent` on every platform: a parent is a
/// shorter beginning of the path, a relative path of one component has the
/// empty parent, and a path read as `a/b` (see `two_components`) has `a`, or
/// the root `/` when `a` is empty.
pub open spec fn parent_facts(path: Seq<char>, par: Option<Seq<char>>) -> bool {
    &&& par is Some ==> par->0.len() < path.len() && has_prefix(path, par->0)
    &&& plain_component(path) ==> par == Some(Seq::<char>::empty())
    &&& component_split(path) is Some ==> par == Some(parent_at(path, component_split(path)->0))
}

/// `std::path::Path::parent`, as text: the path without its final
/// component. Where components split is platform-dependent, so the clause
/// fixes only what `parent_facts` says.
#[verifier::external_body]
fn path_parent(path: &str) -> (res: Option<String>)
    ensures
        parent_facts(path@, opt_string_view(res)),
{
    match std::path::Path::new(path).parent() {
        Some(p) => Some(p.to_string_lossy().into_owned()),
        None => None,
    }
}

/// `std::path::Path::file_name`, as text: the final component. Where
/// components split is platform-dependent, so the clause fixes the result
/// only for a path read as `a/b` (see `two_components`), whose final
/// component is `b`.
#[verifier::external_body]
fn path_file_name(path: &str) -> (res: Option<String>)
    ensures
        component_split(path@) is Some ==> res is Some && res->0@ == path@.skip(
            component_split(path@)->0 + 1,
        ),
{
    match std::path::Path::new(path).file_name() {
        Some(n) => match n.to_str() {
            Some(t) => Some(t.to_owned()),
            None => None,
        },
        None => None,
    }
}

/// A single relative path component: no separator of either platform and
/// no drive colon.
pub open spec fn plain_component(name: Seq<char>) -> bool {
    name.len() > 0 && forall|i: int|
        0 <= i < name.len() ==> #[trigger] name[i] != '/' && name[i] != '\\' && name[i] != ':'
}

/// A Windows verbatim path (`\\?\...`): `PathBuf::push` normalizes such a
/// path when it extends it.
pub open spec fn verbatim(p: Seq<char>) -> bool {
    has_prefix(p, seq!['\\', '\\', '?', '\\'])
}

/// `dir` extended by `name`, with no separator or one of either kind
/// between them.
pub open spec fn joined(dir: Seq<char>, name: Seq<char>, res: Seq<char>) -> bool {
    ||| res == dir + name
    ||| res == dir + seq!['/'] + name
    ||| res == dir + seq!['\\'] + name
}

/// `std::path::Path::join`, as text: a relative `name` extends `dir`, with
/// the platform's separator between them where `dir` does not end in one.
/// A verbatim `dir` is normalized on Windows, so nothing is said of it.
#[verifier::external_body]
fn path_join(dir: &str, name: &str) -> (res: String)
    ensures
        plain_component(name@) && !verbatim(dir@) ==> joined(dir@, name@, res@),
{
    std::path::Path::new(dir).join(name).to_string_lossy().into_owned()
}

/// The name of the app's own subfolder of the recording folder.
pub open spec fn subfolder_name() -> Seq<char> {
    "ReplayTrim"@
}

pub open spec fn mp4_extension() -> Seq<char> {
    "mp4"@
}

/// Whether the server may serve or act on `path`, given the path facts the
/// platform reports for it: its `extension` and `parent`, and the recording
/// folder both as stored and joined with the app's subfolder.
///
/// Allowed are library clips, the clip loaded in the overlay, and any
/// `.mp4` directly inside the recording folder or its subfolder.
pub open spec fn allowed_given(
    clips: Seq<ClipView>,
    overlay_clip: Option<Seq<char>>,
    record_dirs: Option<(Seq<char>, Seq<char>)>,
    path: Seq<char>,
    extension: Option<Seq<char>>,
    parent: Option<Seq<char>>,
) -> bool {
    ||| exists|i: int| 0 <= i < clips.len() && #[trigger] clips[i].path == path
    ||| overlay_clip == Some(path)
    ||| {
        &&& extension == Some(mp4_extension())
        &&& parent is Some
        &&& record_dirs is Some
        &&& match record_dirs {
            Some((dir, sub)) => same_dir_spec(parent->0, dir) || same_dir_spec(parent->0, sub),
            None => false,
        }
    }
}

pub open spec fn opt_view(o: Option<&str>) -> Option<Seq<char>> {
    match o {
        Some(s) => Some(s@),
        None => None,
    }
}

pub open spec fn opt_pair_view(o: Option<(&str, &str)>) -> Option<(Seq<char>, Seq<char>)> {
    match o {
        Some((a, b)) => Some((a@, b@)),
        None => None,
    }
}

pub fn path_allowed_given(
    clips: &Vec<ClipEntry>,
    overlay_clip: Option<&str>,
    record_dirs: Option<(&str, &str)>,
    path: &str,
    extension: Option<&str>,
    parent: Option<&str>,
) -> (res: bool)
    ensures
        res == allowed_given(
            clips_view(clips@),
            opt_view(overlay_clip),
            opt_pair_view(record_dirs),
            path@,
            opt_view(extension),
            opt_view(parent),
        ),
{
    let ghost cv = clips_view(clips@);
    if library_has(clips, path) {
        proof {
            let i = choose|i: int| 0 <= i < clips@.len() && #[trigger] clips@[i].path@ == path@;
            assert(cv[i].path == path@);
        }
        return true;
    }
    assert(!exists|i: int| 0 <= i < cv.len() && #[trigger] cv[i].path == path@) by {
        if exists|i: int| 0 <= i < cv.len() && #[trigger] cv[i].path == path@ {
            let i = choose|i: int| 0 <= i < cv.len() && #[trigger] cv[i].path == path@;
            assert(clips@[i].path@ == path@);
        }
    }
    match overlay_clip {
        Some(c) => {
            if str_eq(c, path) {
                return true;
            }
        },
        None => {},
    }
    let is_mp4 = match extension {
        Some(e) => str_eq(e, "mp4"),
        None => false,
    };
    if !is_mp4 {
        return false;
    }
    let parent = match parent {
        Some(p) => p,
        None => return false,
    };
    match record_dirs {
        Some((dir, sub)) => same_dir(parent, dir) || same_dir(parent, sub),
        None => false,
    }
}

/// Whether the server may serve or act on `path`: library clips, the clip
/// loaded in the overlay, or an `.mp4` directly inside the recording folder
/// (or its app subfolder). Where the path's extension and parent come from
/// the platform's path rules, the answer is `path_allowed_given` of them.
pub fn path_allowed(
    clips: &Vec<ClipEntry>,
    overlay_clip: Option<&str>,
    record_dir: Option<&str>,
    path: &str,
) -> (res: bool)
    ensures
        (exists|i: int| 0 <= i < clips@.len() && #[trigger] clips@[i].path@ == path@) ==> res,
        opt_view(overlay_clip) == Some(path@) ==> res,
        record_dir is None ==> (res <==> ((exists|i: int|
            0 <= i < clips@.len() && #[trigger] clips@[i].path@ == path@) || opt_view(overlay_clip)
            == Some(path@))),
        record_dir is Some ==> exists|sub: Seq<char>, ext: Option<Seq<char>>, par: Option<Seq<char>>|
            {
                &&& !verbatim(record_dir->0@) ==> joined(record_dir->0@, subfolder_name(), sub)
                &&& extension_facts(path@, ext)
                &&& parent_facts(path@, par)
                &&& res == #[trigger] allowed_given(
                    clips_view(clips@),
                    opt_view(overlay_clip),
                    Some((record_dir->0@, sub)),
                    path@,
                    ext,
                    par,
                )
            },
{
    let extension = path_extension(path);
    let parent = path_parent(path);
    let ext_ref = match &extension {
        Some(e) => Some(e.as_str()),
        None => None,
    };
    let parent_ref = match &parent {
        Some(p) => Some(p.as_str()),
        None => None,
    };
    proof {
        reveal_strlit("ReplayTrim");
        assert(plain_component("ReplayTrim"@));
    }
    let res = match record_dir {
        Some(dir) => {
            let sub = path_join(dir, "ReplayTrim");
            let r = path_allowed_given(
                clips,
                overlay_clip,
                Some((dir, sub.as_str())),
                path,
                ext_ref,
                parent_ref,
            );
            proof {
                let e = opt_string_view(extension);
                let q = opt_string_view(parent);
                assert(opt_view(ext_ref) == e);
                assert(opt_view(parent_ref) == q);
                assert(r == allowed_given(
                    clips_view(clips@),
                    opt_view(overlay_clip),
                    Some((dir@, sub@)),
                    path@,
                    e,
                    q,
                ));
            }
            r
        },
        None => path_allowed_given(clips, overlay_clip, None, path, ext_ref, parent_ref),
    };
    proof {
        let cv = clips_view(clips@);
        if exists|i: int| 0 <= i < clips@.len() && #[trigger] clips@[i].path@ == path@ {
            let i = choose|i: int| 0 <= i < clips@.len() && #[trigger] clips@[i].path@ == path@;
            assert(cv[i].path == path@);
        }
        if exists|i: int| 0 <= i < cv.len() && #[trigger] cv[i].path == path@ {
            let i = choose|i: int| 0 <= i < cv.len() && #[trigger] cv[i].path == path@;
            assert(clips@[i].path@ == path@);
        }
    }
    res
}

/// The recording folder: the one OBS reports, unless that is unknown or
/// empty, else the folder of the newest library clip.
pub open spec fn chosen_record_dir(obs_dir: Option<Seq<char>>, fallback: Option<Seq<char>>) -> Option<
    Seq<char>,
> {
    match obs_dir {
        Some(d) => if d.len() > 0 {
            Some(d)
        } else {
            fallback
        },
        None => fallback,
    }
}

/// The folder OBS reports wins when it is non-empty; when OBS reports
/// nothing, or an empty folder, the fallback is chosen, whatever it is.
pub proof fn law_record_dir_fallback(obs_dir: Seq<char>, fallback: Option<Seq<char>>)
    ensures
        chosen_record_dir(None, fallback) == fallback,
        chosen_record_dir(Some(Seq::<char>::empty()), fallback) == fallback,
        obs_dir.len() > 0 ==> chosen_record_dir(Some(obs_dir), fallback) == Some(obs_dir),
{
}

pub open spec fn opt_string_view(o: Option<String>) -> Option<Seq<char>> {
    match o {
        Some(s) => Some(s@),
        None => None,
    }
}

pub fn choose_record_dir(obs_dir: Option<String>, fallback: Option<String>) -> (res: Option<String>)
    ensures
        opt_string_view(res) == chosen_record_dir(opt_string_view(obs_dir), opt_string_view(fallback)),
{
    match obs_dir {
        Some(d) => {
            if !d.as_str().is_empty() {
                Some(d)
            } else {
                fallback
            }
        },
        None => fallback,
    }
}

/// The folder of the newest library clip (the last one), if it has one.
pub fn newest_clip_folder(clips: &Vec<ClipEntry>) -> (res: Option<String>)
    ensures
        clips@.len() == 0 ==> res is None,
        res matches Some(f) ==> clips@.len() > 0 && f@.len() < clips@.last().path@.len()
            && has_prefix(clips@.last().path@, f@),
        clips@.len() > 0 && plain_component(clips@.last().path@) ==> res is Some && res->0@.len()
            == 0,
        forall|k: int|
            clips@.len() > 0 && #[trigger] two_components(clips@.last().path@, k) ==> res is Some
                && res->0@ == parent_at(clips@.last().path@, k),
{
    if clips.len() == 0 {
        return None;
    }
    let res = path_parent(clips[clips.len() - 1].path.as_str());
    proof {
        let last = clips@.last().path@;
        assert forall|k: int| #[trigger] two_components(last, k) implies res is Some && res->0@
            == parent_at(last, k) by {
            lemma_component_split(last, k);
        }
    }
    res
}

/// The root recording folder for `dir`: when `dir` is the app's own
/// subfolder (its `name` is `ReplayTrim`) and it has a `parent`, that
/// parent; otherwise `dir` itself.
pub open spec fn root_given(dir: Seq<char>, name: Option<Seq<char>>, parent: Option<Seq<char>>) -> Seq<
    char,
> {
    if name == Some(subfolder_name()) && parent is Some {
        parent->0
    } else {
        dir
    }
}

pub fn recording_root_given(dir: String, name: Option<&str>, parent: Option<String>) -> (res: String)
    ensures
        res@ == root_given(dir@, opt_view(name), opt_string_view(parent)),
{
    let is_sub = match name {
        Some(n) => str_eq(n, "ReplayTrim"),
        None => false,
    };
    if is_sub {
        match parent {
            Some(p) => p,
            None => dir,
        }
    } else {
        dir
    }
}

/// The root recording folder for `dir`, by the platform's path rules: see
/// `recording_root_given`.
pub fn recording_root(dir: String) -> (res: String)
    ensures
        res@ == dir@ || (res@.len() < dir@.len() && has_prefix(dir@, res@)),
        forall|k: int|
            #[trigger] two_components(dir@, k) ==> res@ == if dir@.skip(k + 1) == subfolder_name() {
                parent_at(dir@, k)
            } else {
                dir@
            },
{
    let name = path_file_name(dir.as_str());
    let parent = path_parent(dir.as_str());
    let name_ref = match &name {
        Some(n) => Some(n.as_str()),
        None => None,
    };
    let ghost d = dir@;
    let res = recording_root_given(dir, name_ref, parent);
    proof {
        assert forall|k: int| #[trigger] two_components(d, k) implies res@ == if d.skip(k + 1)
            == subfolder_name() {
            parent_at(d, k)
        } else {
            d
        } by {
            lemma_component_split(d, k);
        }
    }
    res
}

/// Whether a folder listing shows the recording folder itself (`which` is
/// `recordings`) rather than the app's subfolder (anything else).
pub fn lists_recordings(which: Option<&str>) -> (res: bool)
    ensures
        res == (opt_view(which) == Some("recordings"@)),
{
    match which {
        Some(w) => str_eq(w, "recordings"),
        None => false,
    }
}

/// The folder a listing shows: the root, or its `ReplayTrim` subfolder.
pub fn listing_dir(root: &str, which: Option<&str>) -> (res: String)
    ensures
        opt_view(which) == Some("recordings"@) ==> res@ == root@,
        opt_view(which) != Some("recordings"@) && !verbatim(root@) ==> joined(
            root@,
            subfolder_name(),
            res@,
        ),
{
    if lists_recordings(which) {
        root.to_owned()
    } else {
        proof {
            reveal_strlit("ReplayTrim");
            assert(plain_component("ReplayTrim"@));
        }
        path_join(root, "ReplayTrim")
    }
}

} // verus!
