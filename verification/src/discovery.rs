//! Which files a run reads: the paths given, directories searched (with
//! `-r`) for JSON and YAML files, all in path order.  What the file system
//! holds is probed by the caller and handed in as `PathProbe`s.

use vstd::prelude::*;
use crate::input::{kind_for_extension, kind_for_path, path_extension_spec, Source};
use crate::preview::strings_view;

verus! {

/// An entry met while walking a directory: a regular file, something else,
/// or an error of the walk.
#[derive(Debug)]
pub enum WalkEntry {
    File(String),
    Other,
    Failed(String),
}

/// A path given on the command line: not a directory, or a directory with
/// the entries of its walk (none are needed without `-r`).
#[derive(Debug)]
pub enum PathProbe {
    File(String),
    Dir(String, Vec<WalkEntry>),
}

/// Whether the path `a` sorts before the path `b` (`Path`'s ordering, by
/// components).
pub uninterp spec fn path_order(a: Seq<char>, b: Seq<char>) -> bool;

/// `std::path::Path`'s `<`: the result is `path_order` of the two paths;
/// as the documentation of `Ord` requires, two paths never both sort
/// before each other.
#[verifier::external_body]
fn path_precedes(a: &str, b: &str) -> (r: bool)
    ensures
        r == path_order(a@, b@),
        r ==> !path_order(b@, a@),
{
    std::path::Path::new(a) < std::path::Path::new(b)
}

/// A walked file is searched when its extension names JSON or YAML.
pub open spec fn searched(path: Seq<char>) -> bool {
    kind_for_extension(path_extension_spec(path)) is Some
}

/// The files and the errors of a walk, in order.
pub open spec fn walk_spec(entries: Seq<WalkEntry>) -> (Seq<Seq<char>>, Seq<Seq<char>>)
    decreases entries.len(),
{
    if entries.len() == 0 {
        (Seq::empty(), Seq::empty())
    } else {
        let (fs, es) = walk_spec(entries.drop_last());
        match entries.last() {
            WalkEntry::File(p) => if searched(p@) {
                (fs.push(p@), es)
            } else {
                (fs, es)
            },
            WalkEntry::Other => (fs, es),
            WalkEntry::Failed(e) => (fs, es.push(e@)),
        }
    }
}

/// The files and the errors for one given path: a non-directory is read
/// as given; a directory is an error without `-r`, else what its walk
/// finds.
pub open spec fn probe_spec(p: PathProbe, recursive: bool) -> (Seq<Seq<char>>, Seq<Seq<char>>) {
    match p {
        PathProbe::File(path) => (seq![path@], Seq::empty()),
        PathProbe::Dir(path, entries) => if !recursive {
            (Seq::empty(), seq![path@ + ": Is a directory"@])
        } else {
            walk_spec(entries@)
        },
    }
}

/// The files and the errors for all given paths, in order.
pub open spec fn probes_spec(ps: Seq<PathProbe>, recursive: bool) -> (Seq<Seq<char>>, Seq<Seq<char>>)
    decreases ps.len(),
{
    if ps.len() == 0 {
        (Seq::empty(), Seq::empty())
    } else {
        let (fs, es) = probes_spec(ps.drop_last(), recursive);
        let (f2, e2) = probe_spec(ps.last(), recursive);
        (fs + f2, es + e2)
    }
}

/// No path sorts before the one before it.
pub open spec fn path_sorted(s: Seq<Seq<char>>) -> bool {
    forall|i: int| 0 <= i < s.len() - 1 ==> !path_order(#[trigger] s[i + 1], s[i])
}

pub open spec fn source_paths(v: Seq<Source>) -> Seq<Seq<char>> {
    v.map_values(|s: Source| s.path_spec())
}

/// Where `x` goes among the first `j` entries of `s`: after the last one
/// that `x` does not sort before.
pub open spec fn insert_pos(s: Seq<Seq<char>>, x: Seq<char>, j: int) -> int
    decreases j,
{
    if j > 0 && path_order(x, s[j - 1]) {
        insert_pos(s, x, j - 1)
    } else {
        j
    }
}

/// `s` sorted by path order, stably: each path, taken in turn, goes after
/// every path already placed that it does not sort before, so paths that
/// compare equal (such as `a//b` and `a/b`) keep their order.
pub open spec fn stable_sorted(s: Seq<Seq<char>>) -> Seq<Seq<char>>
    decreases s.len(),
{
    if s.len() == 0 {
        Seq::empty()
    } else {
        let done = stable_sorted(s.drop_last());
        done.insert(insert_pos(done, s.last(), done.len() as int), s.last())
    }
}

/// `paths` in path order, stably (see `stable_sorted`).
pub fn sort_paths(paths: Vec<String>) -> (r: Vec<String>)
    ensures
        strings_view(r@) == stable_sorted(strings_view(paths@)),
        strings_view(r@).to_multiset() == strings_view(paths@).to_multiset(),
        path_sorted(strings_view(r@)),
{
    let ghost pv = strings_view(paths@);
    let mut out: Vec<String> = Vec::new();
    let n = paths.len();
    proof {
        assert(pv.take(0) =~= Seq::<Seq<char>>::empty());
        assert(strings_view(out@) =~= Seq::<Seq<char>>::empty());
    }
    for x in it: paths.into_iter()
        invariant
            n == it.seq().len(),
            pv == strings_view(it.seq()),
            strings_view(out@).to_multiset() == pv.take(it.index() as int).to_multiset(),
            strings_view(out@) == stable_sorted(pv.take(it.index() as int)),
            path_sorted(strings_view(out@)),
    {
        let ghost i = it.index();
        let ghost ov = strings_view(out@);
        let mut j = out.len();
        while j > 0 && path_precedes(x.as_str(), out[j - 1].as_str())
            invariant
                j <= out.len(),
                ov == strings_view(out@),
                forall|k: int| j <= k < out@.len() ==> path_order(x@, #[trigger] ov[k]) && !path_order(ov[k], x@),
                insert_pos(ov, x@, j as int) == insert_pos(ov, x@, ov.len() as int),
            decreases j,
        {
            j = j - 1;
        }
        proof {
            assert(j > 0 ==> !path_order(x@, ov[j - 1]));
            assert(insert_pos(ov, x@, j as int) == j);
            assert(pv.take(i + 1).drop_last() =~= pv.take(i as int));
            assert(pv.take(i + 1).last() == x@);
        }
        let ghost xv = x@;
        out.insert(j, x);
        proof {
            let nv = strings_view(out@);
            assert(nv =~= ov.insert(j as int, xv));
            vstd::seq_lib::to_multiset_insert(ov, j as int, xv);
            assert(pv.take(i + 1) =~= pv.take(i as int).push(xv));
            vstd::seq_lib::to_multiset_build(pv.take(i as int), xv);
            assert forall|k: int| 0 <= k < nv.len() - 1 implies !path_order(#[trigger] nv[k + 1], nv[k]) by {
                if k + 1 < j {
                    assert(nv[k + 1] == ov[k + 1] && nv[k] == ov[k]);
                    assert(!path_order(ov[k + 1], ov[k]));
                } else if k + 1 == j {
                    assert(nv[k + 1] == xv && nv[k] == ov[k]);
                } else if k == j {
                    assert(nv[k] == xv && nv[k + 1] == ov[k]);
                    assert(!path_order(ov[k], xv));
                } else {
                    assert(nv[k + 1] == ov[k] && nv[k] == ov[k - 1]);
                    assert(!path_order(ov[(k - 1) + 1], ov[k - 1]));
                }
            }
        }
    }
    proof {
        assert(pv.take(n as int) =~= pv);
    }
    out
}

fn walk(entries: Vec<WalkEntry>, files: &mut Vec<String>, errors: &mut Vec<String>)
    ensures
        strings_view(final(files)@) == strings_view(old(files)@) + walk_spec(entries@).0,
        strings_view(final(errors)@) == strings_view(old(errors)@) + walk_spec(entries@).1,
{
    let ghost ev = entries@;
    let ghost f0 = strings_view(files@);
    let ghost e0 = strings_view(errors@);
    let n = entries.len();
    proof {
        assert(ev.take(0) =~= Seq::<WalkEntry>::empty());
        assert(f0 + Seq::<Seq<char>>::empty() =~= f0);
        assert(e0 + Seq::<Seq<char>>::empty() =~= e0);
    }
    for entry in it: entries.into_iter()
        invariant
            n == it.seq().len(),
            ev == it.seq(),
            strings_view(files@) == f0 + walk_spec(ev.take(it.index() as int)).0,
            strings_view(errors@) == e0 + walk_spec(ev.take(it.index() as int)).1,
    {
        let ghost i = it.index();
        let ghost fb = files@;
        let ghost eb = errors@;
        proof {
            assert(ev.take(i + 1).drop_last() =~= ev.take(i as int));
            assert(ev.take(i + 1).last() == entry);
        }
        match entry {
            WalkEntry::File(p) => {
                if kind_for_path(p.as_str()).is_some() {
                    files.push(p);
                    proof {
                        assert(strings_view(files@) =~= strings_view(fb).push(p@));
                    }
                }
            },
            WalkEntry::Other => {},
            WalkEntry::Failed(e) => {
                errors.push(e);
                proof {
                    assert(strings_view(errors@) =~= strings_view(eb).push(e@));
                }
            },
        }
    }
    proof {
        assert(ev.take(n as int) =~= ev);
    }
}

/// The inputs of a run.  No paths: standard input (`None`).  Otherwise the
/// files found (see `probes_spec`), in path order, or every error met.
pub fn resolve(probes: Vec<PathProbe>, recursive: bool) -> (r: Result<Option<Vec<Source>>, Vec<String>>)
    ensures
        probes@.len() == 0 ==> r matches Ok(None),
        probes@.len() > 0 && probes_spec(probes@, recursive).1.len() > 0 ==> r is Err && strings_view(r->Err_0@)
            == probes_spec(probes@, recursive).1,
        probes@.len() > 0 && probes_spec(probes@, recursive).1.len() == 0 ==> (r matches Ok(Some(v)) && (forall|i: int|
            0 <= i < v@.len() ==> #[trigger] v@[i] is File) && source_paths(v@) == stable_sorted(
            probes_spec(probes@, recursive).0,
        ) && source_paths(v@).to_multiset() == probes_spec(
            probes@,
            recursive,
        ).0.to_multiset() && path_sorted(source_paths(v@))),
{
    if probes.len() == 0 {
        return Ok(None);
    }
    let ghost ps = probes@;
    let mut files: Vec<String> = Vec::new();
    let mut errors: Vec<String> = Vec::new();
    let n = probes.len();
    proof {
        assert(ps.take(0) =~= Seq::<PathProbe>::empty());
        assert(strings_view(files@) =~= Seq::<Seq<char>>::empty());
        assert(strings_view(errors@) =~= Seq::<Seq<char>>::empty());
    }
    for probe in it: probes.into_iter()
        invariant
            n == it.seq().len(),
            ps == it.seq(),
            strings_view(files@) == probes_spec(ps.take(it.index() as int), recursive).0,
            strings_view(errors@) == probes_spec(ps.take(it.index() as int), recursive).1,
    {
        let ghost i = it.index();
        let ghost fb = strings_view(files@);
        let ghost eb = strings_view(errors@);
        proof {
            assert(ps.take(i + 1).drop_last() =~= ps.take(i as int));
            assert(ps.take(i + 1).last() == probe);
        }
        match probe {
            PathProbe::File(p) => {
                files.push(p);
                proof {
                    assert(strings_view(files@) =~= fb + seq![p@]);
                    assert(strings_view(errors@) =~= eb + Seq::<Seq<char>>::empty());
                }
            },
            PathProbe::Dir(p, entries) => {
                if !recursive {
                    let mut m = p;
                    m.append(": Is a directory");
                    errors.push(m);
                    proof {
                        assert(strings_view(errors@) =~= eb + seq![m@]);
                        assert(strings_view(files@) =~= fb + Seq::<Seq<char>>::empty());
                    }
                } else {
                    walk(entries, &mut files, &mut errors);
                }
            },
        }
    }
    proof {
        assert(ps.take(n as int) =~= ps);
    }
    let sorted = sort_paths(files);
    if errors.len() > 0 {
        return Err(errors);
    }
    let ghost sv = strings_view(sorted@);
    let mut out: Vec<Source> = Vec::new();
    let m = sorted.len();
    for p in it: sorted.into_iter()
        invariant
            m == it.seq().len(),
            sv == strings_view(it.seq()),
            source_paths(out@) == sv.take(it.index() as int),
            forall|k: int| 0 <= k < out@.len() ==> #[trigger] out@[k] is File,
    {
        let ghost i = it.index();
        let ghost before = out@;
        out.push(Source::File(p));
        proof {
            assert(source_paths(out@) =~= source_paths(before).push(p@));
            assert(sv.take(i + 1) =~= sv.take(i as int).push(sv[i as int]));
        }
    }
    proof {
        assert(sv.take(m as int) =~= sv);
    }
    Ok(Some(out))
}

} // verus!
