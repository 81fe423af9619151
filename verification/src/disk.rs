//! The directory-content model behind the sync utility.
//!
//! A directory is represented by the list of relative paths of the files it
//! holds.  The destructive operations (clearing a directory, copying or
//! moving its contents) are functions from old contents to new contents with
//! exact contracts; the process that mirrors the results onto the real file
//! system performs no decision of its own.

use vstd::prelude::*;

use crate::text::{chars_of, string_of};

verus! {

broadcast use vstd::seq_lib::group_filter_ensures;

/// Path separators: both kinds occur in manifests and on disk.
pub open spec fn is_sep(c: char) -> bool {
    c == '/' || c == '\\'
}

/// A path without its trailing separators and trailing `.` components,
/// which name no file of their own.
pub open spec fn strip_trivia(p: Seq<char>) -> Seq<char>
    decreases p.len(),
{
    if p.len() == 0 {
        p
    } else if is_sep(p[p.len() - 1]) {
        strip_trivia(p.drop_last())
    } else if p[p.len() - 1] == '.' && (p.len() == 1 || is_sep(p[p.len() - 2])) {
        strip_trivia(p.drop_last())
    } else {
        p
    }
}

/// The suffix after the last separator; empty when the path ends in one.
pub open spec fn last_component(p: Seq<char>) -> Seq<char>
    decreases p.len(),
{
    if p.len() == 0 {
        p
    } else if is_sep(p[p.len() - 1]) {
        Seq::empty()
    } else {
        last_component(p.drop_last()).push(p[p.len() - 1])
    }
}

/// The file name of a path: trailing separators and `.` components are
/// skipped and the last remaining component is the name; a path with no
/// such component, or one whose last component is the parent-directory
/// step `..`, names no file and falls back to the whole path.
pub open spec fn file_name(p: Seq<char>) -> Seq<char> {
    let q = strip_trivia(p);
    if q.len() == 0 {
        p
    } else if last_component(q) == seq!['.', '.'] {
        p
    } else {
        last_component(q)
    }
}

/// Every path in `req` occurs in `dir`.
pub open spec fn spec_contains_all(dir: Seq<Seq<char>>, req: Seq<Seq<char>>) -> bool {
    forall|i: int| 0 <= i < req.len() ==> dir.contains(req[i])
}

/// A path whose file name is one of the excluded names.
pub open spec fn name_excluded(p: Seq<char>, ignored: Seq<Seq<char>>) -> bool {
    ignored.contains(file_name(p))
}

/// What is left of a directory after its contents are deleted: exactly the
/// files whose names are excluded from deletion.
pub open spec fn spec_delete(files: Seq<Seq<char>>, ignored: Seq<Seq<char>>) -> Seq<Seq<char>> {
    files.filter(|p: Seq<char>| name_excluded(p, ignored))
}

/// The target of a copy or move: the target is cleared first (sparing
/// excluded names), then every source file with a non-excluded name arrives.
pub open spec fn spec_sync(
    from: Seq<Seq<char>>,
    to: Seq<Seq<char>>,
    ignored: Seq<Seq<char>>,
) -> Seq<Seq<char>> {
    spec_delete(to, ignored) + from.filter(|p: Seq<char>| !name_excluded(p, ignored))
}

/// If a path is a suffix with no separator and what precedes it is empty or
/// ends in a separator, then that suffix is the last component.
proof fn lemma_last_component_suffix(p: Seq<char>, i: int)
    requires
        0 <= i <= p.len(),
        forall|j: int| i <= j < p.len() ==> !is_sep(p[j]),
        i == 0 || is_sep(p[i - 1]),
    ensures
        last_component(p) == p.subrange(i, p.len() as int),
    decreases p.len(),
{
    if p.len() == 0 {
        assert(last_component(p) =~= p.subrange(0, 0));
    } else if i == p.len() {
        assert(is_sep(p[p.len() - 1]));
        assert(last_component(p) =~= p.subrange(i, p.len() as int));
    } else {
        assert(!is_sep(p[p.len() - 1]));
        let q = p.drop_last();
        lemma_last_component_suffix(q, i);
        assert(q.subrange(i, q.len() as int).push(p[p.len() - 1]) =~= p.subrange(
            i,
            p.len() as int,
        ));
    }
}

/// The file name of a path, as the update engine uses it to decide which
/// files an exclusion list protects.
pub fn get_filename(path: &String) -> (r: String)
    ensures
        r@ == file_name(path@),
{
    let v = chars_of(path.as_str());
    let n = v.len();
    // skip the trailing separators and `.` components
    let mut j: usize = n;
    proof {
        assert(path@.subrange(0, n as int) =~= path@);
    }
    while j > 0 && (v[j - 1] == '/' || v[j - 1] == '\\' || (v[j - 1] == '.' && (j == 1 || v[j
        - 2] == '/' || v[j - 2] == '\\')))
        invariant
            n == v@.len(),
            v@ == path@,
            j <= n,
            strip_trivia(path@) == strip_trivia(path@.subrange(0, j as int)),
        decreases j,
    {
        proof {
            let cur = path@.subrange(0, j as int);
            assert(cur.drop_last() =~= path@.subrange(0, j - 1));
            assert(cur[cur.len() - 1] == path@[j - 1]);
            if cur.len() >= 2 {
                assert(cur[cur.len() - 2] == path@[j - 2]);
            }
        }
        j -= 1;
    }
    proof {
        assert(path@.subrange(0, n as int) =~= path@);
    }
    if j == 0 {
        // nothing names a file: separators and `.` components only
        proof {
            assert(strip_trivia(path@.subrange(0, 0)).len() == 0);
        }
        return path.clone();
    }
    let ghost q = path@.subrange(0, j as int);
    proof {
        // the scan stopped at a character that is neither a separator nor
        // the dot of a trailing `.` component, so nothing more is stripped
        assert(q[q.len() - 1] == path@[j - 1]);
        if q.len() >= 2 {
            assert(q[q.len() - 2] == path@[j - 2]);
        }
        assert(strip_trivia(q) == q);
    }
    // find the last separator before the name
    let mut i: usize = j;
    while i > 0 && v[i - 1] != '/' && v[i - 1] != '\\'
        invariant
            n == v@.len(),
            v@ == path@,
            i <= j <= n,
            forall|k: int| i <= k < j ==> !is_sep(v@[k]),
        decreases i,
    {
        i -= 1;
    }
    proof {
        assert(forall|k: int| i <= k < q.len() ==> !is_sep(#[trigger] q[k]));
        if i > 0 {
            assert(q[i - 1] == path@[i - 1]);
        }
        lemma_last_component_suffix(q, i as int);
    }
    if j - i == 2 && v[i] == '.' && v[i + 1] == '.' {
        // the last component is the parent-directory step: no file name
        proof {
            assert(q.subrange(i as int, q.len() as int) =~= seq!['.', '.']);
        }
        return path.clone();
    }
    proof {
        let comp = q.subrange(i as int, q.len() as int);
        if comp.len() == 2 {
            assert(comp[0] == path@[i as int] && comp[1] == path@[i + 1]);
            assert(comp != seq!['.', '.']);
        } else {
            assert(comp.len() != 2);
            assert(comp != seq!['.', '.']);
        }
    }
    let mut name: Vec<char> = Vec::new();
    let mut k: usize = i;
    while k < j
        invariant
            n == v@.len(),
            v@ == path@,
            i <= k <= j <= n,
            name@ == path@.subrange(i as int, k as int),
        decreases j - k,
    {
        name.push(v[k]);
        k += 1;
        proof {
            assert(name@ =~= path@.subrange(i as int, k as int));
        }
    }
    proof {
        assert(q.subrange(i as int, q.len() as int) =~= path@.subrange(i as int, j as int));
    }
    string_of(&name)
}

/// Separator normalisation: every separator becomes a backslash and runs of
/// separators collapse to one, processed left to right.
pub open spec fn normalize_rec(p: Seq<char>, prev_sep: bool) -> Seq<char>
    decreases p.len(),
{
    if p.len() == 0 {
        Seq::empty()
    } else if is_sep(p[0]) {
        if prev_sep {
            normalize_rec(p.drop_first(), true)
        } else {
            seq!['\\'] + normalize_rec(p.drop_first(), true)
        }
    } else {
        seq![p[0]] + normalize_rec(p.drop_first(), false)
    }
}

pub open spec fn spec_to_slash(p: Seq<char>) -> Seq<char> {
    normalize_rec(p, false)
}

/// Normalises a path so that nested directories are handled uniformly:
/// forward slashes become backslashes and doubled separators collapse.
pub fn to_slash(path: &String) -> (r: String)
    ensures
        r@ == spec_to_slash(path@),
{
    let v = chars_of(path.as_str());
    let n = v.len();
    let mut out: Vec<char> = Vec::new();
    let mut prev_sep = false;
    let mut i: usize = 0;
    proof {
        assert(path@.subrange(0, n as int) =~= path@);
    }
    while i < n
        invariant
            n == v@.len(),
            v@ == path@,
            i <= n,
            spec_to_slash(path@) == out@ + normalize_rec(path@.subrange(i as int, n as int), prev_sep),
        decreases n - i,
    {
        let ghost rest = path@.subrange(i as int, n as int);
        let c = v[i];
        proof {
            assert(rest[0] == path@[i as int]);
            assert(rest.drop_first() =~= path@.subrange(i + 1, n as int));
        }
        if c == '/' || c == '\\' {
            if !prev_sep {
                out.push('\\');
            }
            prev_sep = true;
        } else {
            out.push(c);
            prev_sep = false;
        }
        i += 1;
        proof {
            assert(spec_to_slash(path@) =~= out@ + normalize_rec(
                path@.subrange(i as int, n as int),
                prev_sep,
            ));
        }
    }
    proof {
        assert(normalize_rec(path@.subrange(n as int, n as int), prev_sep) =~= Seq::<
            char,
        >::empty());
        assert(spec_to_slash(path@) =~= out@);
    }
    string_of(&out)
}

/// Whether the list holds a string with exactly these characters.
pub fn contains_string(v: &Vec<String>, s: &String) -> (r: bool)
    ensures
        r == v.deep_view().contains(s@),
{
    let mut i: usize = 0;
    while i < v.len()
        invariant
            i <= v@.len(),
            forall|j: int| 0 <= j < i ==> v.deep_view()[j] != s@,
        decreases v@.len() - i,
    {
        if v[i].eq(s) {
            proof {
                assert(v.deep_view()[i as int] == s@);
            }
            return true;
        }
        i += 1;
    }
    false
}

/// The installation-completeness check: every required file occurs in the
/// directory listing.  Deliberately file-based, so a partial install is
/// detected regardless of any version string.
pub fn dir_contains_all_files(dir_files: &Vec<String>, files: &Vec<String>) -> (r: bool)
    ensures
        r == spec_contains_all(dir_files.deep_view(), files.deep_view()),
{
    let mut i: usize = 0;
    while i < files.len()
        invariant
            i <= files@.len(),
            forall|j: int| 0 <= j < i ==> dir_files.deep_view().contains(files.deep_view()[j]),
        decreases files@.len() - i,
    {
        if !contains_string(dir_files, &files[i]) {
            proof {
                assert(!dir_files.deep_view().contains(files.deep_view()[i as int]));
            }
            return false;
        }
        i += 1;
    }
    true
}

/// How many files a directory listing holds.
pub fn get_total_files(dir_files: &Vec<String>) -> (r: u64)
    ensures
        r == dir_files@.len(),
{
    dir_files.len() as u64
}

/// Clears a directory: returns what survives, which is exactly the files
/// whose names stand on the exclusion list.  The exclusion list exists so
/// the running executable, its log and its self-update siblings are never
/// deleted out from under themselves.
pub fn delete_dir_contents(files: &Vec<String>, ignored: &Vec<String>) -> (kept: Vec<String>)
    ensures
        kept.deep_view() == spec_delete(files.deep_view(), ignored.deep_view()),
{
    let ghost pred = |p: Seq<char>| name_excluded(p, ignored.deep_view());
    let mut kept: Vec<String> = Vec::new();
    let mut i: usize = 0;
    while i < files.len()
        invariant
            i <= files@.len(),
            kept.deep_view() == files.deep_view().subrange(0, i as int).filter(pred),
            pred == (|p: Seq<char>| name_excluded(p, ignored.deep_view())),
        decreases files@.len() - i,
    {
        let ghost prefix = files.deep_view().subrange(0, i as int);
        let name = get_filename(&files[i]);
        if contains_string(ignored, &name) {
            kept.push(files[i].clone());
        }
        i += 1;
        proof {
            let prefix2 = files.deep_view().subrange(0, i as int);
            assert(prefix2.drop_last() =~= prefix);
            reveal(Seq::filter);
            assert(kept.deep_view() =~= prefix2.filter(pred));
        }
    }
    proof {
        assert(files.deep_view().subrange(0, files.deep_view().len() as int) =~= files.deep_view());
    }
    kept
}

/// The files that a copy or move lets through: every source file whose name
/// is not excluded, in order.
fn surviving_sources(from: &Vec<String>, ignored: &Vec<String>) -> (moved: Vec<String>)
    ensures
        moved.deep_view() == from.deep_view().filter(
            |p: Seq<char>| !name_excluded(p, ignored.deep_view()),
        ),
{
    let ghost pred = |p: Seq<char>| !name_excluded(p, ignored.deep_view());
    let mut moved: Vec<String> = Vec::new();
    let mut i: usize = 0;
    while i < from.len()
        invariant
            i <= from@.len(),
            moved.deep_view() == from.deep_view().subrange(0, i as int).filter(pred),
            pred == (|p: Seq<char>| !name_excluded(p, ignored.deep_view())),
        decreases from@.len() - i,
    {
        let ghost prefix = from.deep_view().subrange(0, i as int);
        let name = get_filename(&from[i]);
        if !contains_string(ignored, &name) {
            moved.push(from[i].clone());
        }
        i += 1;
        proof {
            let prefix2 = from.deep_view().subrange(0, i as int);
            assert(prefix2.drop_last() =~= prefix);
            reveal(Seq::filter);
            assert(moved.deep_view() =~= prefix2.filter(pred));
        }
    }
    proof {
        assert(from.deep_view().subrange(0, from.deep_view().len() as int) =~= from.deep_view());
    }
    moved
}

/// Copies the contents of one directory over another.  The result is the new
/// contents of the target: what the clearing spared, then every source file
/// whose name is not excluded.  The source is untouched.
pub fn copy_dir(from: &Vec<String>, to: &Vec<String>, ignored: &Vec<String>) -> (new_to: Vec<
    String,
>)
    ensures
        new_to.deep_view() == spec_sync(from.deep_view(), to.deep_view(), ignored.deep_view()),
{
    let mut new_to = delete_dir_contents(to, ignored);
    let mut arriving = surviving_sources(from, ignored);
    new_to.append(&mut arriving);
    proof {
        assert(new_to.deep_view() =~= spec_sync(
            from.deep_view(),
            to.deep_view(),
            ignored.deep_view(),
        ));
    }
    new_to
}

/// Moves the contents of one directory over another.  Returns the new
/// contents of the source (only files with excluded names stay behind) and
/// of the target (as for a copy).
pub fn move_dir(from: &Vec<String>, to: &Vec<String>, ignored: &Vec<String>) -> (r: (
    Vec<String>,
    Vec<String>,
))
    ensures
        r.0.deep_view() == spec_delete(from.deep_view(), ignored.deep_view()),
        r.1.deep_view() == spec_sync(from.deep_view(), to.deep_view(), ignored.deep_view()),
{
    let new_from = delete_dir_contents(from, ignored);
    let new_to = copy_dir(from, to, ignored);
    (new_from, new_to)
}

/// Completeness is kept when a directory gains extra files.
pub proof fn lemma_contains_all_monotone(
    dir: Seq<Seq<char>>,
    extra: Seq<Seq<char>>,
    req: Seq<Seq<char>>,
)
    requires
        spec_contains_all(dir, req),
    ensures
        spec_contains_all(dir + extra, req),
{
    assert forall|i: int| 0 <= i < req.len() implies (dir + extra).contains(req[i]) by {
        let j = choose|j: int| 0 <= j < dir.len() && dir[j] == req[i];
        assert((dir + extra)[j] == req[i]);
    }
}

/// Completeness is lost when any required file is missing: a directory that
/// no longer holds one of the required paths fails the check.
pub proof fn lemma_contains_all_needs_file(dir: Seq<Seq<char>>, req: Seq<Seq<char>>, i: int)
    requires
        0 <= i < req.len(),
        !dir.contains(req[i]),
    ensures
        !spec_contains_all(dir, req),
{
}

/// Membership in a filtered sequence, spelled out.
proof fn lemma_filter_membership(s: Seq<Seq<char>>, pred: spec_fn(Seq<char>) -> bool, x: Seq<char>)
    ensures
        s.filter(pred).contains(x) == (s.contains(x) && pred(x)),
    decreases s.len(),
{
    reveal(Seq::filter);
    if s.len() > 0 {
        lemma_filter_membership(s.drop_last(), pred, x);
        if s.contains(x) && pred(x) {
            let i = choose|i: int| 0 <= i < s.len() && s[i] == x;
            if i < s.len() - 1 {
                assert(s.drop_last()[i] == x);
            }
            if s.drop_last().filter(pred).contains(x) {
                let j = choose|j: int|
                    0 <= j < s.drop_last().filter(pred).len() && s.drop_last().filter(pred)[j] == x;
                assert(s.filter(pred)[j] == x);
            }
        }
        if s.filter(pred).contains(x) {
            if s.drop_last().filter(pred).contains(x) {
                let i = choose|i: int|
                    0 <= i < s.drop_last().len() && s.drop_last()[i] == x;
                assert(s[i] == x);
            }
        }
    }
}

/// Membership in a concatenation, spelled out.
proof fn lemma_concat_membership(a: Seq<Seq<char>>, b: Seq<Seq<char>>, x: Seq<char>)
    ensures
        (a + b).contains(x) == (a.contains(x) || b.contains(x)),
{
    if a.contains(x) {
        let i = choose|i: int| 0 <= i < a.len() && a[i] == x;
        assert((a + b)[i] == x);
    }
    if b.contains(x) {
        let i = choose|i: int| 0 <= i < b.len() && b[i] == x;
        assert((a + b)[a.len() + i] == x);
    }
    if (a + b).contains(x) {
        let i = choose|i: int| 0 <= i < (a + b).len() && (a + b)[i] == x;
        if i < a.len() {
            assert(a[i] == x);
        } else {
            assert(b[i - a.len()] == x);
        }
    }
}

/// What clearing a directory keeps, as a membership fact: a file survives
/// exactly when it was there and its name is excluded.
pub proof fn lemma_delete_membership(files: Seq<Seq<char>>, ignored: Seq<Seq<char>>, f: Seq<char>)
    ensures
        spec_delete(files, ignored).contains(f) == (files.contains(f) && name_excluded(f, ignored)),
{
    lemma_filter_membership(files, |p: Seq<char>| name_excluded(p, ignored), f);
}

/// What a copy or move leaves in the target, as a membership fact: the
/// target's excluded survivors plus every source file whose name passes.
pub proof fn lemma_sync_membership(from: Seq<Seq<char>>, to: Seq<Seq<char>>, ignored: Seq<Seq<char>>)
    ensures
        forall|f: Seq<char>|
            #[trigger] spec_sync(from, to, ignored).contains(f) == (spec_delete(
                to,
                ignored,
            ).contains(f) || (from.contains(f) && !name_excluded(f, ignored))),
{
    let pass = |p: Seq<char>| !name_excluded(p, ignored);
    assert forall|f: Seq<char>|
        #[trigger] spec_sync(from, to, ignored).contains(f) == (spec_delete(to, ignored).contains(
            f,
        ) || (from.contains(f) && !name_excluded(f, ignored))) by {
        lemma_concat_membership(spec_delete(to, ignored), from.filter(pass), f);
        lemma_filter_membership(from, pass, f);
    }
}

/// Rollback restores the original file set.  `orig` is the install directory
/// before the update, `backup` the copy taken into an empty backup
/// directory, and `mid` the install directory after a clearing that failed
/// partway: the excluded files are untouched, so what survives a full
/// clearing of `mid` is what would survive one of `orig`.  Moving the backup
/// over `mid` then yields exactly the original files.
pub proof fn lemma_rollback_restores(
    orig: Seq<Seq<char>>,
    mid: Seq<Seq<char>>,
    backup: Seq<Seq<char>>,
    ignored: Seq<Seq<char>>,
)
    requires
        backup == spec_sync(orig, Seq::<Seq<char>>::empty(), ignored),
        spec_delete(mid, ignored) == spec_delete(orig, ignored),
    ensures
        forall|f: Seq<char>|
            #[trigger] spec_sync(backup, mid, ignored).contains(f) == orig.contains(f),
{
    let keep = |p: Seq<char>| name_excluded(p, ignored);
    let pass = |p: Seq<char>| !name_excluded(p, ignored);
    assert(spec_delete(Seq::<Seq<char>>::empty(), ignored) =~= Seq::<Seq<char>>::empty());
    assert(backup =~= orig.filter(pass));
    let restored = spec_sync(backup, mid, ignored);
    assert forall|f: Seq<char>| #[trigger] restored.contains(f) == orig.contains(f) by {
        lemma_filter_membership(orig, keep, f);
        lemma_filter_membership(orig, pass, f);
        lemma_filter_membership(mid, keep, f);
        lemma_filter_membership(backup, pass, f);
        assert(restored.contains(f) == (spec_delete(mid, ignored).contains(f) || backup.filter(
            pass,
        ).contains(f))) by {
            if spec_delete(mid, ignored).contains(f) {
                let i = choose|i: int|
                    0 <= i < spec_delete(mid, ignored).len() && spec_delete(mid, ignored)[i] == f;
                assert(restored[i] == f);
            }
            if backup.filter(pass).contains(f) {
                let i = choose|i: int|
                    0 <= i < backup.filter(pass).len() && backup.filter(pass)[i] == f;
                assert(restored[spec_delete(mid, ignored).len() + i] == f);
            }
            if restored.contains(f) {
                let i = choose|i: int| 0 <= i < restored.len() && restored[i] == f;
                if i < spec_delete(mid, ignored).len() {
                    assert(spec_delete(mid, ignored)[i] == f);
                } else {
                    assert(backup.filter(pass)[i - spec_delete(mid, ignored).len()] == f);
                }
            }
        }
        assert(backup.filter(pass).contains(f) == (orig.contains(f) && pass(f))) by {
            lemma_filter_membership(orig.filter(pass), pass, f);
        }
    }
}

} // verus!
