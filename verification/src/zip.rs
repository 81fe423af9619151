//! The decision half of the archive utility.
//!
//! Reading archive bytes and writing extracted files happens outside the
//! library; what is decided here, under contract, is where each archive
//! entry may land: its name is split into components, anything that could
//! escape the destination — empty components, `.`, `..` — is dropped, and
//! the rest is joined below the destination directory.

use vstd::prelude::*;

use crate::disk::is_sep;
use crate::text::{chars_of, string_of};

verus! {

broadcast use vstd::seq_lib::group_filter_ensures;

/// Splitting on separators, front to back, with the component read so far.
pub open spec fn split_comp_rec(s: Seq<char>, cur: Seq<char>) -> Seq<Seq<char>>
    decreases s.len(),
{
    if s.len() == 0 {
        seq![cur]
    } else if is_sep(s[0]) {
        seq![cur] + split_comp_rec(s.drop_first(), Seq::empty())
    } else {
        split_comp_rec(s.drop_first(), cur.push(s[0]))
    }
}

/// The separator-delimited components of an entry name.
pub open spec fn split_components(s: Seq<char>) -> Seq<Seq<char>> {
    split_comp_rec(s, Seq::empty())
}

/// A component that may appear in an extraction path: non-empty and neither
/// the current- nor the parent-directory name.
pub open spec fn keep_component(c: Seq<char>) -> bool {
    c.len() > 0 && c != seq!['.'] && c != seq!['.', '.']
}

/// The components of an entry name that survive sanitisation.
pub open spec fn kept_components(s: Seq<char>) -> Seq<Seq<char>> {
    split_components(s).filter(|c: Seq<char>| keep_component(c))
}

/// Components joined with backslashes.
pub open spec fn spec_join(parts: Seq<Seq<char>>) -> Seq<char>
    decreases parts.len(),
{
    if parts.len() == 0 {
        Seq::empty()
    } else if parts.len() == 1 {
        parts[0]
    } else {
        parts[0] + seq!['\\'] + spec_join(parts.drop_first())
    }
}

/// The sanitised relative path of an archive entry.
pub open spec fn spec_sanitize(s: Seq<char>) -> Seq<char> {
    spec_join(kept_components(s))
}

/// No component that survives sanitisation is a parent-directory step, so a
/// sanitised path can never climb out of the directory it is joined to.
pub proof fn lemma_sanitize_rejects_traversal(s: Seq<char>)
    ensures
        forall|i: int|
            0 <= i < kept_components(s).len() ==> (#[trigger] kept_components(s)[i]) != seq![
                '.',
                '.',
            ] && kept_components(s)[i].len() > 0,
{
    let kept = kept_components(s);
    assert forall|i: int|
        0 <= i < kept.len() implies (#[trigger] kept[i]) != seq!['.', '.'] && kept[i].len()
        > 0 by {
        split_components(s).lemma_filter_pred(|c: Seq<char>| keep_component(c), i);
    }
}

/// The separator-delimited components of an entry name, as vectors.
fn split_name(s: &String) -> (parts: Vec<Vec<char>>)
    ensures
        views(parts@) == split_components(s@),
{
    let v = chars_of(s.as_str());
    let n = v.len();
    let mut done: Vec<Vec<char>> = Vec::new();
    let mut cur: Vec<char> = Vec::new();
    let mut i: usize = 0;
    proof {
        assert(s@.subrange(0, n as int) =~= s@);
        assert(views(done@) =~= Seq::<Seq<char>>::empty());
    }
    while i < n
        invariant
            n == v@.len(),
            v@ == s@,
            i <= n,
            split_components(s@) == views(done@) + split_comp_rec(
                s@.subrange(i as int, n as int),
                cur@,
            ),
        decreases n - i,
    {
        let ghost rest = s@.subrange(i as int, n as int);
        proof {
            assert(rest[0] == s@[i as int]);
            assert(rest.drop_first() =~= s@.subrange(i + 1, n as int));
        }
        let c = v[i];
        if c == '/' || c == '\\' {
            let ghost pre = done@;
            let ghost curview = cur@;
            done.push(cur);
            cur = Vec::new();
            proof {
                assert(views(done@) =~= views(pre).push(curview));
                assert(views(pre).push(curview) + split_comp_rec(
                    s@.subrange(i + 1, n as int),
                    Seq::empty(),
                ) =~= views(pre) + (seq![curview] + split_comp_rec(
                    s@.subrange(i + 1, n as int),
                    Seq::empty(),
                )));
            }
        } else {
            cur.push(c);
        }
        i += 1;
    }
    proof {
        assert(s@.subrange(n as int, n as int).len() == 0);
    }
    let ghost pre = done@;
    let ghost curview = cur@;
    done.push(cur);
    proof {
        assert(views(done@) =~= views(pre).push(curview));
        assert(views(pre) + seq![curview] =~= views(pre).push(curview));
        assert(views(done@) =~= split_components(s@));
    }
    done
}

/// The character sequences of a list of character vectors.
spec fn views(parts: Seq<Vec<char>>) -> Seq<Seq<char>> {
    Seq::new(parts.len(), |i: int| parts[i]@)
}

/// Whether this component survives sanitisation.
fn keep_this(c: &Vec<char>) -> (r: bool)
    ensures
        r == keep_component(c@),
{
    if c.len() == 0 {
        return false;
    }
    if c.len() == 1 && c[0] == '.' {
        proof {
            assert(c@ =~= seq!['.']);
        }
        return false;
    }
    if c.len() == 2 && c[0] == '.' && c[1] == '.' {
        proof {
            assert(c@ =~= seq!['.', '.']);
        }
        return false;
    }
    proof {
        if c@ == seq!['.'] {
            assert(c@.len() == 1 && c@[0] == '.');
        }
        if c@ == seq!['.', '.'] {
            assert(c@.len() == 2 && c@[0] == '.' && c@[1] == '.');
        }
    }
    true
}

/// Sanitises an archive entry name into the relative path it may extract
/// to: empty, `.` and `..` components are dropped, the rest joined with
/// backslashes.  Traversal is thereby rejected by construction.
pub fn sanitize_entry_name(name: &String) -> (r: String)
    ensures
        r@ == spec_sanitize(name@),
{
    let ghost pred = |c: Seq<char>| keep_component(c);
    let parts = split_name(name);
    let mut kept: Vec<Vec<char>> = Vec::new();
    let mut i: usize = 0;
    while i < parts.len()
        invariant
            views(parts@) == split_components(name@),
            i <= parts@.len(),
            views(kept@) == views(parts@).subrange(0, i as int).filter(pred),
            pred == (|c: Seq<char>| keep_component(c)),
        decreases parts@.len() - i,
    {
        let ghost prefix = views(parts@).subrange(0, i as int);
        let ghost pre = kept@;
        if keep_this(&parts[i]) {
            kept.push(parts[i].clone());
            proof {
                assert(cloned::<Vec<char>>(parts@[i as int], kept@[kept@.len() - 1]));
                assert(kept@[kept@.len() - 1]@ == parts@[i as int]@);
                assert(views(kept@) =~= views(pre).push(parts@[i as int]@));
            }
        }
        i += 1;
        proof {
            let prefix2 = views(parts@).subrange(0, i as int);
            assert(prefix2.drop_last() =~= prefix);
            assert(prefix2.last() == parts@[i - 1]@);
            reveal(Seq::filter);
            assert(views(kept@) =~= prefix2.filter(pred));
        }
    }
    proof {
        assert(views(parts@).subrange(0, parts@.len() as int) =~= views(parts@));
    }
    let mut out: Vec<char> = Vec::new();
    let mut j: usize = 0;
    while j < kept.len()
        invariant
            views(kept@) == kept_components(name@),
            j <= kept@.len(),
            out@ == spec_join_prefix(views(kept@), j as int),
        decreases kept@.len() - j,
    {
        if j > 0 {
            out.push('\\');
        }
        let mut piece = kept[j].clone();
        proof {
            assert(cloned::<Vec<char>>(kept@[j as int], piece));
            assert(piece@ == kept@[j as int]@);
        }
        out.append(&mut piece);
        j += 1;
        proof {
            lemma_join_prefix_step(views(kept@), j as int);
            assert(out@ =~= spec_join_prefix(views(kept@), j as int));
        }
    }
    proof {
        lemma_join_prefix_full(views(kept@));
    }
    string_of(&out)
}

/// The join of the first `j` components, with no trailing separator.
spec fn spec_join_prefix(parts: Seq<Seq<char>>, j: int) -> Seq<char>
    decreases j,
{
    if j <= 0 {
        Seq::empty()
    } else if j == 1 {
        parts[0]
    } else {
        spec_join_prefix(parts, j - 1) + seq!['\\'] + parts[j - 1]
    }
}

/// One more component extends the joined prefix by a separator and the
/// component.
proof fn lemma_join_prefix_step(parts: Seq<Seq<char>>, j: int)
    requires
        1 <= j,
    ensures
        j == 1 ==> spec_join_prefix(parts, j) == parts[0],
        j > 1 ==> spec_join_prefix(parts, j) == spec_join_prefix(parts, j - 1) + seq!['\\']
            + parts[j - 1],
{
}

/// The joined prefix of all components is the join.
proof fn lemma_join_prefix_full(parts: Seq<Seq<char>>)
    ensures
        spec_join_prefix(parts, parts.len() as int) == spec_join(parts),
    decreases parts.len(),
{
    if parts.len() > 1 {
        let n = parts.len() as int;
        lemma_join_prefix_full(parts.drop_last());
        lemma_join_drop_last(parts);
        lemma_join_prefix_agrees(parts, n - 1);
        assert(spec_join_prefix(parts, n) == spec_join_prefix(parts, n - 1) + seq!['\\']
            + parts[n - 1]);
        assert(spec_join_prefix(parts.drop_last(), n - 1) == spec_join(parts.drop_last()));
        assert(spec_join_prefix(parts, n) =~= spec_join(parts));
    }
}

/// Joining all but the last component and then the last is the whole join.
proof fn lemma_join_drop_last(parts: Seq<Seq<char>>)
    requires
        parts.len() > 1,
    ensures
        spec_join(parts) == spec_join(parts.drop_last()) + seq!['\\'] + parts.last(),
    decreases parts.len(),
{
    if parts.len() == 2 {
        assert(parts.drop_last().drop_first() =~= Seq::<Seq<char>>::empty());
        assert(parts.drop_first() =~= seq![parts[1]]);
        assert(parts.drop_last() =~= seq![parts[0]]);
        assert(spec_join(parts) =~= spec_join(parts.drop_last()) + seq!['\\'] + parts.last());
    } else {
        lemma_join_drop_last(parts.drop_first());
        assert(parts.drop_first().drop_last() =~= parts.drop_last().drop_first());
        assert(parts.drop_last().len() > 1);
        assert(parts.drop_first().last() == parts.last());
        assert(parts.drop_last()[0] == parts[0]);
        assert(spec_join(parts) == parts[0] + seq!['\\'] + spec_join(parts.drop_first()));
        assert(spec_join(parts.drop_last()) == parts.drop_last()[0] + seq!['\\'] + spec_join(
            parts.drop_last().drop_first(),
        ));
        assert(spec_join(parts) =~= spec_join(parts.drop_last()) + seq!['\\'] + parts.last());
    }
}

/// A prefix join does not look at the components beyond it.
proof fn lemma_join_prefix_agrees(parts: Seq<Seq<char>>, j: int)
    requires
        0 <= j <= parts.len() - 1,
    ensures
        spec_join_prefix(parts.drop_last(), j) == spec_join_prefix(parts, j),
    decreases j,
{
    if j > 1 {
        lemma_join_prefix_agrees(parts, j - 1);
        assert(parts.drop_last()[j - 1] == parts[j - 1]);
    } else if j == 1 {
        assert(parts.drop_last()[0] == parts[0]);
    }
}

/// Whether an archive entry denotes a directory: its name ends in a
/// forward slash.
pub fn entry_is_dir(name: &String) -> (r: bool)
    ensures
        r == (name@.len() > 0 && name@.last() == '/'),
{
    let v = chars_of(name.as_str());
    v.len() > 0 && v[v.len() - 1] == '/'
}

/// The absolute destination of one entry: the sanitised name joined below
/// the destination directory.
pub fn entry_destination(dest_dir: &String, name: &String) -> (r: String)
    ensures
        r@ == dest_dir@ + seq!['\\'] + spec_sanitize(name@),
{
    let rel = sanitize_entry_name(name);
    let mut out = dest_dir.clone();
    out.append("\\");
    out.append(rel.as_str());
    proof {
        vstd::prelude::reveal_strlit("\\");
        assert("\\"@ =~= seq!['\\']);
        assert(out@ =~= dest_dir@ + seq!['\\'] + spec_sanitize(name@));
    }
    out
}

} // verus!
