//! Semantic comparison of version strings.
//!
//! The engine treats exact (semantic) equality as "up to date" and every
//! other relation — including an unparsable version on either side — as
//! "needs update", erring toward re-applying rather than staying stale.
//! A version is a dot-separated list of decimal components; leading zeros in
//! a component and trailing zero components are insignificant, so
//! `1.02.0` equals `1.2`.

use vstd::prelude::*;

verus! {

pub open spec fn is_digit(c: char) -> bool {
    '0' <= c <= '9'
}

/// Splitting on dots, front to back, with the component read so far.
pub open spec fn split_rec(s: Seq<char>, cur: Seq<char>) -> Seq<Seq<char>>
    decreases s.len(),
{
    if s.len() == 0 {
        seq![cur]
    } else if s[0] == '.' {
        seq![cur] + split_rec(s.drop_first(), Seq::empty())
    } else {
        split_rec(s.drop_first(), cur.push(s[0]))
    }
}

/// The dot-separated components of a version string.
pub open spec fn split_dots(s: Seq<char>) -> Seq<Seq<char>> {
    split_rec(s, Seq::empty())
}

/// A parsable version: every component is a non-empty run of digits.
pub open spec fn spec_parsable(s: Seq<char>) -> bool {
    forall|i: int|
        0 <= i < split_dots(s).len() ==> {
            let part = #[trigger] split_dots(s)[i];
            part.len() > 0 && forall|j: int| 0 <= j < part.len() ==> is_digit(part[j])
        }
}

/// A component without its leading zeros; `0` becomes the empty sequence.
pub open spec fn strip_zeros(part: Seq<char>) -> Seq<char>
    decreases part.len(),
{
    if part.len() == 0 {
        part
    } else if part[0] == '0' {
        strip_zeros(part.drop_first())
    } else {
        part
    }
}

/// The canonical form of a component list: leading zeros gone from each
/// component, and trailing zero components dropped.
pub open spec fn canon(parts: Seq<Seq<char>>) -> Seq<Seq<char>>
    decreases parts.len(),
{
    if parts.len() == 0 {
        parts
    } else if strip_zeros(parts.last()).len() == 0 {
        canon(parts.drop_last())
    } else {
        parts.drop_last().map_values(|p: Seq<char>| strip_zeros(p)).push(strip_zeros(parts.last()))
    }
}

/// Semantic equality of two version strings: both parse and their canonical
/// component lists agree.
pub open spec fn spec_versions_equal(a: Seq<char>, b: Seq<char>) -> bool {
    spec_parsable(a) && spec_parsable(b) && canon(split_dots(a)) == canon(split_dots(b))
}

/// The character sequences of a list of character vectors.
spec fn views(parts: Seq<Vec<char>>) -> Seq<Seq<char>> {
    Seq::new(parts.len(), |i: int| parts[i]@)
}

/// The components of a version string, each component a character vector.
fn split_version(s: &String) -> (parts: Vec<Vec<char>>)
    ensures
        views(parts@) == split_dots(s@),
{
    let v = crate::text::chars_of(s.as_str());
    let n = v.len();
    let mut done: Vec<Vec<char>> = Vec::new();
    let mut cur: Vec<char> = Vec::new();
    let mut i: usize = 0;
    proof {
        assert(s@.subrange(0, n as int) =~= s@);
        assert(views(done@) =~= Seq::<Seq<char>>::empty());
    }
    while i < n
        invariant
            n == v@.len(),
            v@ == s@,
            i <= n,
            split_dots(s@) == views(done@) + split_rec(s@.subrange(i as int, n as int), cur@),
        decreases n - i,
    {
        let ghost rest = s@.subrange(i as int, n as int);
        proof {
            assert(rest[0] == s@[i as int]);
            assert(rest.drop_first() =~= s@.subrange(i + 1, n as int));
        }
        if v[i] == '.' {
            let ghost pre = done@;
            let ghost curview = cur@;
            done.push(cur);
            cur = Vec::new();
            proof {
                assert(views(done@) =~= views(pre).push(curview));
                assert(views(pre).push(curview) + split_rec(
                    s@.subrange(i + 1, n as int),
                    Seq::empty(),
                ) =~= views(pre) + (seq![curview] + split_rec(
                    s@.subrange(i + 1, n as int),
                    Seq::empty(),
                )));
            }
        } else {
            cur.push(v[i]);
        }
        i += 1;
    }
    proof {
        assert(s@.subrange(n as int, n as int).len() == 0);
    }
    let ghost pre = done@;
    let ghost curview = cur@;
    done.push(cur);
    proof {
        assert(views(done@) =~= views(pre).push(curview));
        assert(views(pre) + seq![curview] =~= views(pre).push(curview));
        assert(views(done@) =~= split_dots(s@));
    }
    done
}

/// Whether every component is a non-empty digit run.
fn parts_parsable(parts: &Vec<Vec<char>>) -> (r: bool)
    ensures
        r == (forall|i: int|
            0 <= i < views(parts@).len() ==> {
                let part = #[trigger] views(parts@)[i];
                part.len() > 0 && forall|j: int| 0 <= j < part.len() ==> is_digit(part[j])
            }),
{
    let mut i: usize = 0;
    while i < parts.len()
        invariant
            i <= parts@.len(),
            forall|k: int|
                0 <= k < i ==> {
                    let part = #[trigger] views(parts@)[k];
                    part.len() > 0 && forall|j: int| 0 <= j < part.len() ==> is_digit(part[j])
                },
        decreases parts@.len() - i,
    {
        let part = &parts[i];
        if part.len() == 0 {
            proof {
                assert(views(parts@)[i as int].len() == 0);
            }
            return false;
        }
        let mut j: usize = 0;
        while j < part.len()
            invariant
                j <= part@.len(),
                i < parts@.len(),
                part@ == views(parts@)[i as int],
                forall|k: int| 0 <= k < j ==> is_digit(part@[k]),
            decreases part@.len() - j,
        {
            let c = part[j];
            if !('0' <= c && c <= '9') {
                proof {
                    assert(!is_digit(views(parts@)[i as int][j as int]));
                }
                return false;
            }
            j += 1;
        }
        i += 1;
    }
    true
}

/// A component with leading zeros removed.
fn strip_zeros_exec(part: &Vec<char>) -> (r: Vec<char>)
    ensures
        r@ == strip_zeros(part@),
{
    let n = part.len();
    let mut i: usize = 0;
    proof {
        assert(part@.subrange(0, n as int) =~= part@);
    }
    while i < n && part[i] == '0'
        invariant
            n == part@.len(),
            i <= n,
            strip_zeros(part@) == strip_zeros(part@.subrange(i as int, n as int)),
        decreases n - i,
    {
        proof {
            let rest = part@.subrange(i as int, n as int);
            assert(rest[0] == part@[i as int]);
            assert(rest.drop_first() =~= part@.subrange(i + 1, n as int));
        }
        i += 1;
    }
    let mut out: Vec<char> = Vec::new();
    let mut j: usize = i;
    while j < n
        invariant
            n == part@.len(),
            i <= j <= n,
            out@ == part@.subrange(i as int, j as int),
        decreases n - j,
    {
        out.push(part[j]);
        j += 1;
        proof {
            assert(out@ =~= part@.subrange(i as int, j as int));
        }
    }
    proof {
        let rest = part@.subrange(i as int, n as int);
        if i < n {
            assert(rest[0] == part@[i as int]);
        }
        assert(strip_zeros(rest) =~= rest);
        assert(out@ =~= rest);
    }
    out
}

/// The canonical form of a component list.
fn canon_exec(parts: &Vec<Vec<char>>) -> (r: Vec<Vec<char>>)
    ensures
        views(r@) == canon(views(parts@)),
{
    let ghost whole = views(parts@);
    // find the last component that is not all zeros
    let mut end: usize = parts.len();
    proof {
        assert(whole.subrange(0, end as int) =~= whole);
    }
    while end > 0 && strip_zeros_exec(&parts[end - 1]).len() == 0
        invariant
            whole == views(parts@),
            end <= parts@.len(),
            canon(whole) == canon(whole.subrange(0, end as int)),
        decreases end,
    {
        proof {
            let prefix = whole.subrange(0, end as int);
            assert(prefix.last() == whole[end - 1]);
            assert(strip_zeros(prefix.last()).len() == 0);
            assert(prefix.drop_last() =~= whole.subrange(0, end - 1));
        }
        end -= 1;
    }
    let mut out: Vec<Vec<char>> = Vec::new();
    if end == 0 {
        proof {
            assert(whole.subrange(0, 0).len() == 0);
            assert(views(out@) =~= canon(whole));
        }
        return out;
    }
    proof {
        let prefix = whole.subrange(0, end as int);
        assert(prefix.last() == whole[end - 1]);
    }
    let mut i: usize = 0;
    while i < end
        invariant
            whole == views(parts@),
            0 < end <= parts@.len(),
            i <= end,
            strip_zeros(whole[end - 1]).len() > 0,
            canon(whole) == canon(whole.subrange(0, end as int)),
            views(out@) == whole.subrange(0, i as int).map_values(|p: Seq<char>| strip_zeros(p)),
        decreases end - i,
    {
        let ghost pre = out@;
        let stripped = strip_zeros_exec(&parts[i]);
        out.push(stripped);
        i += 1;
        proof {
            assert(views(out@) =~= views(pre).push(strip_zeros(whole[i - 1])));
            assert(views(out@) =~= whole.subrange(0, i as int).map_values(
                |p: Seq<char>| strip_zeros(p),
            ));
        }
    }
    proof {
        let prefix = whole.subrange(0, end as int);
        assert(prefix.last() == whole[end - 1]);
        assert(prefix.drop_last() =~= whole.subrange(0, end - 1));
        assert(canon(prefix) == prefix.drop_last().map_values(|p: Seq<char>| strip_zeros(p)).push(
            strip_zeros(prefix.last()),
        ));
        assert(views(out@) =~= canon(prefix));
    }
    out
}

/// Element-wise equality of two lists of character vectors.
fn vec_seq_eq(a: &Vec<Vec<char>>, b: &Vec<Vec<char>>) -> (r: bool)
    ensures
        r == (views(a@) == views(b@)),
{
    if a.len() != b.len() {
        proof {
            assert(views(a@).len() != views(b@).len());
        }
        return false;
    }
    let mut i: usize = 0;
    while i < a.len()
        invariant
            a@.len() == b@.len(),
            i <= a@.len(),
            forall|j: int| 0 <= j < i ==> views(a@)[j] == views(b@)[j],
        decreases a@.len() - i,
    {
        if !chars_eq(&a[i], &b[i]) {
            proof {
                assert(views(a@)[i as int] != views(b@)[i as int]);
            }
            return false;
        }
        i += 1;
    }
    proof {
        assert(views(a@) =~= views(b@));
    }
    true
}

/// Equality of two character vectors.
fn chars_eq(a: &Vec<char>, b: &Vec<char>) -> (r: bool)
    ensures
        r == (a@ == b@),
{
    if a.len() != b.len() {
        return false;
    }
    let mut i: usize = 0;
    while i < a.len()
        invariant
            a@.len() == b@.len(),
            i <= a@.len(),
            forall|j: int| 0 <= j < i ==> a@[j] == b@[j],
        decreases a@.len() - i,
    {
        if a[i] != b[i] {
            return false;
        }
        i += 1;
    }
    proof {
        assert(a@ =~= b@);
    }
    true
}

/// Semantic equality of two version strings.  Unparsable input on either
/// side compares as unequal, so the caller treats it as out of date.
pub fn versions_equal(a: &String, b: &String) -> (r: bool)
    ensures
        r == spec_versions_equal(a@, b@),
{
    let pa = split_version(a);
    let pb = split_version(b);
    if !parts_parsable(&pa) {
        return false;
    }
    if !parts_parsable(&pb) {
        return false;
    }
    let ca = canon_exec(&pa);
    let cb = canon_exec(&pb);
    vec_seq_eq(&ca, &cb)
}

} // verus!
