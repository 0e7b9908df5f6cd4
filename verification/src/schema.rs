//! Schema inference: the field paths that occur in a set of documents, the
//! types seen at each, and how often each occurs.

use vstd::prelude::*;
use crate::engine::{lossy_string, lossy_text};
use crate::order::{chars_lt, lemma_lt_asymmetric, lemma_lt_irreflexive, lemma_lt_total, lemma_lt_transitive, seq_lt, strictly_sorted};
use crate::output::{format_value, format_value_spec};
use crate::text::{string_from_chars, to_chars};
use crate::value::{kind, kind_spec, Value};

verus! {

/// One inferred field: its path (`a.b`, `tags[]`), the sorted type names
/// seen there, and the number of occurrences.
#[derive(Debug)]
pub struct FieldSummary {
    pub path: String,
    pub types: Vec<String>,
    pub count: usize,
}

/// An occurrence of a value at a path: the path and the value's type name.
pub type Occurrence = (Seq<char>, Seq<char>);

/// The path of an object member.
pub open spec fn join_path_spec(parent: Seq<char>, segment: Seq<char>) -> Seq<char> {
    if parent.len() == 0 {
        segment
    } else {
        parent + "."@ + segment
    }
}

/// The path of array items.
pub open spec fn array_child_spec(path: Seq<char>) -> Seq<char> {
    if path.len() == 0 {
        "[]"@
    } else {
        path + "[]"@
    }
}

/// How an object key appears in a path: a text key as its text, any other
/// key as compact JSON (or `<key>` if it cannot be rendered).
pub open spec fn key_segment_spec(key: Value) -> Seq<char> {
    match key {
        Value::TStr(b) => lossy_text(b@),
        _ => match format_value_spec(key, false) {
            Ok(t) => t,
            Err(_) => "<key>"@,
        },
    }
}

/// The occurrences in a value reached at `path`, in visiting order: the
/// value itself (unless at the document root), then its members or items.
pub open spec fn occ_value(v: Value, path: Seq<char>) -> Seq<Occurrence>
    decreases v, 0int,
{
    let own: Seq<Occurrence> = if path.len() > 0 {
        seq![(path, kind_spec(v))]
    } else {
        Seq::empty()
    };
    own + match v {
        Value::Obj(entries) => occ_entries(entries@, 0, path),
        Value::Arr(items) => occ_items(items@, 0, array_child_spec(path)),
        _ => Seq::empty(),
    }
}

/// The occurrences in the object members from position `i` on.
pub open spec fn occ_entries(es: Seq<(Value, Value)>, i: int, path: Seq<char>) -> Seq<Occurrence>
    decreases es, es.len() - i,
{
    if i < 0 || i >= es.len() {
        Seq::empty()
    } else {
        occ_value(es[i].1, join_path_spec(path, key_segment_spec(es[i].0))) + occ_entries(
            es,
            i + 1,
            path,
        )
    }
}

/// The occurrences in the array items from position `i` on.
pub open spec fn occ_items(items: Seq<Value>, i: int, path: Seq<char>) -> Seq<Occurrence>
    decreases items, items.len() - i,
{
    if i < 0 || i >= items.len() {
        Seq::empty()
    } else {
        occ_value(items[i], path) + occ_items(items, i + 1, path)
    }
}

/// The occurrences in the first `n` documents.
pub open spec fn occ_docs(values: Seq<Value>, n: int) -> Seq<Occurrence>
    decreases n,
{
    if n <= 0 || n > values.len() {
        Seq::empty()
    } else {
        occ_docs(values, n - 1) + occ_value(values[n - 1], Seq::empty())
    }
}

/// Number of occurrences at `path`.
pub open spec fn count_at(occ: Seq<Occurrence>, path: Seq<char>) -> nat
    decreases occ.len(),
{
    if occ.len() == 0 {
        0
    } else {
        count_at(occ.drop_last(), path) + if occ.last().0 == path {
            1nat
        } else {
            0nat
        }
    }
}

/// Some occurrence is at `path`.
pub open spec fn has_path(occ: Seq<Occurrence>, path: Seq<char>) -> bool {
    exists|i: int| 0 <= i < occ.len() && (#[trigger] occ[i]).0 == path
}

/// Some occurrence at `path` has type `t`.
pub open spec fn has_occ(occ: Seq<Occurrence>, path: Seq<char>, t: Seq<char>) -> bool {
    exists|i: int| 0 <= i < occ.len() && (#[trigger] occ[i]) == (path, t)
}

pub open spec fn paths_view(fields: Seq<FieldSummary>) -> Seq<Seq<char>> {
    fields.map_values(|f: FieldSummary| f.path@)
}

/// The texts of a list of strings.
pub open spec fn strings_view(v: Seq<String>) -> Seq<Seq<char>> {
    v.map_values(|t: String| t@)
}

pub open spec fn types_view(f: FieldSummary) -> Seq<Seq<char>> {
    strings_view(f.types@)
}

/// The count reported for `n` occurrences.
pub open spec fn capped(n: nat) -> nat {
    if n > usize::MAX {
        usize::MAX as nat
    } else {
        n
    }
}

/// `fields` summarizes the occurrences: one entry per path that occurs,
/// sorted by path; for each, the sorted distinct types seen there and the
/// number of occurrences (capped at `usize::MAX`).
pub open spec fn summarizes(fields: Seq<FieldSummary>, occ: Seq<Occurrence>) -> bool {
    &&& strictly_sorted(paths_view(fields))
    &&& forall|j: int| 0 <= j < fields.len() ==> has_path(occ, #[trigger] fields[j].path@)
    &&& forall|p: Seq<char>| has_path(occ, p) ==> exists|j: int| 0 <= j < fields.len() && #[trigger] fields[j].path@ == p
    &&& forall|j: int| 0 <= j < fields.len() ==> strictly_sorted(types_view(#[trigger] fields[j]))
    &&& forall|j: int, t: Seq<char>|
        #![trigger types_view(fields[j]).contains(t)]
        #![trigger has_occ(occ, fields[j].path@, t)]
        0 <= j < fields.len() ==> (types_view(fields[j]).contains(t) <==> has_occ(occ, fields[j].path@, t))
    &&& forall|j: int| 0 <= j < fields.len() ==> (#[trigger] fields[j]).count == capped(count_at(occ, fields[j].path@))
}

/// No documents, no fields.
pub proof fn lemma_no_fields(fields: Seq<FieldSummary>, values: Seq<Value>, n: int)
    requires
        values.len() == 0,
        summarizes(fields, occ_docs(values, n)),
    ensures
        fields.len() == 0,
{
    if fields.len() > 0 {
        assert(has_path(occ_docs(values, n), fields[0].path@));
    }
}

proof fn lemma_push_occ(occ: Seq<Occurrence>, x: Occurrence)
    ensures
        forall|p: Seq<char>| #[trigger] has_path(occ.push(x), p) <==> (has_path(occ, p) || x.0 == p),
        forall|p: Seq<char>, t: Seq<char>| #[trigger] has_occ(occ.push(x), p, t) <==> (has_occ(occ, p, t) || x == (p, t)),
        forall|p: Seq<char>| #[trigger] count_at(occ.push(x), p) == count_at(occ, p) + if x.0 == p { 1nat } else { 0nat },
{
    let o2 = occ.push(x);
    assert(o2.drop_last() == occ);
    assert forall|p: Seq<char>| #[trigger] has_path(o2, p) <==> (has_path(occ, p) || x.0 == p) by {
        if has_path(o2, p) {
            let i = choose|i: int| 0 <= i < o2.len() && (#[trigger] o2[i]).0 == p;
            if i < occ.len() {
                assert(occ[i] == o2[i]);
            }
        }
        if has_path(occ, p) {
            let i = choose|i: int| 0 <= i < occ.len() && (#[trigger] occ[i]).0 == p;
            assert(o2[i] == occ[i]);
        }
        if x.0 == p {
            assert(o2[occ.len() as int] == x);
        }
    }
    assert forall|p: Seq<char>, t: Seq<char>| #[trigger] has_occ(o2, p, t) <==> (has_occ(occ, p, t) || x == (p, t)) by {
        if has_occ(o2, p, t) {
            let i = choose|i: int| 0 <= i < o2.len() && (#[trigger] o2[i]) == (p, t);
            if i < occ.len() {
                assert(occ[i] == o2[i]);
            }
        }
        if has_occ(occ, p, t) {
            let i = choose|i: int| 0 <= i < occ.len() && (#[trigger] occ[i]) == (p, t);
            assert(o2[i] == occ[i]);
        }
        if x == (p, t) {
            assert(o2[occ.len() as int] == x);
        }
    }
}

// ---------------------------------------------------------------------
// Sorted insertion
// ---------------------------------------------------------------------

/// Position of the first string of `v` that does not sort before `x`.
fn lower_bound_strings(v: &Vec<String>, x: &Vec<char>) -> (r: usize)
    requires
        strictly_sorted(strings_view(v@)),
    ensures
        r <= v.len(),
        forall|i: int| 0 <= i < r ==> seq_lt(#[trigger] v@[i]@, x@),
        r < v.len() ==> !seq_lt(v@[r as int]@, x@),
{
    let mut i: usize = 0;
    while i < v.len()
        invariant
            i <= v.len(),
            forall|k: int| 0 <= k < i ==> seq_lt(#[trigger] v@[k]@, x@),
        decreases v.len() - i,
    {
        let c = to_chars(v[i].as_str());
        if !chars_lt(&c, x) {
            return i;
        }
        i = i + 1;
    }
    i
}

/// Adds `x` to a sorted set of strings.
fn insert_sorted(v: &mut Vec<String>, x: &str)
    requires
        strictly_sorted(strings_view(old(v)@)),
    ensures
        strictly_sorted(strings_view(final(v)@)),
        forall|t: Seq<char>| #[trigger] strings_view(final(v)@).contains(t) <==> (strings_view(old(v)@).contains(t) || t == x@),
{
    let ghost old_view = strings_view(v@);
    let xc = to_chars(x);
    let pos = lower_bound_strings(v, &xc);
    if pos < v.len() {
        let c = to_chars(v[pos].as_str());
        if crate::text::chars_eq_str(&c, x) {
            proof {
                assert(old_view[pos as int] == x@);
            }
            return;
        }
    }
    v.insert(pos, x.to_owned());
    proof {
        let nv = strings_view(v@);
        assert(nv =~= old_view.insert(pos as int, x@));
        if pos < old_view.len() {
            lemma_lt_total(old_view[pos as int], x@);
            assert(old_view[pos as int] == v@[pos + 1]@);
        }
        assert forall|i: int, j: int| 0 <= i < j < nv.len() implies seq_lt(#[trigger] nv[i], #[trigger] nv[j]) by {
            if j < pos {
                assert(nv[i] == old_view[i] && nv[j] == old_view[j]);
            } else if j == pos {
                assert(nv[i] == old_view[i]);
                assert(nv[i] == v@[i]@);
            } else if i == pos {
                assert(nv[j] == old_view[j - 1]);
                if j - 1 > pos {
                    assert(seq_lt(old_view[pos as int], old_view[j - 1]));
                    lemma_lt_transitive(x@, old_view[pos as int], old_view[j - 1]);
                }
            } else if i < pos {
                assert(nv[i] == old_view[i] && nv[j] == old_view[j - 1]);
            } else {
                assert(nv[i] == old_view[i - 1] && nv[j] == old_view[j - 1]);
            }
        }
        assert forall|t: Seq<char>| #[trigger] nv.contains(t) <==> (old_view.contains(t) || t == x@) by {
            if nv.contains(t) {
                let k = choose|k: int| 0 <= k < nv.len() && nv[k] == t;
                if k < pos {
                    assert(old_view[k] == t);
                } else if k > pos {
                    assert(old_view[k - 1] == t);
                }
            }
            if old_view.contains(t) {
                let k = choose|k: int| 0 <= k < old_view.len() && old_view[k] == t;
                if k < pos {
                    assert(nv[k] == t);
                } else {
                    assert(nv[k + 1] == t);
                }
            }
            if t == x@ {
                assert(nv[pos as int] == t);
            }
        }
    }
}

/// Position of the first field whose path does not sort before `x`.
fn lower_bound_fields(v: &Vec<FieldSummary>, x: &Vec<char>) -> (r: usize)
    ensures
        r <= v.len(),
        forall|i: int| 0 <= i < r ==> seq_lt(#[trigger] v@[i].path@, x@),
        r < v.len() ==> !seq_lt(v@[r as int].path@, x@),
{
    let mut i: usize = 0;
    while i < v.len()
        invariant
            i <= v.len(),
            forall|k: int| 0 <= k < i ==> seq_lt(#[trigger] v@[k].path@, x@),
        decreases v.len() - i,
    {
        let c = to_chars(v[i].path.as_str());
        if !chars_lt(&c, x) {
            return i;
        }
        i = i + 1;
    }
    i
}

/// Records one occurrence of a value of type `kind` at `path`.
fn record(fields: &mut Vec<FieldSummary>, path: &Vec<char>, kind: &str, Ghost(occ): Ghost<Seq<Occurrence>>)
    requires
        summarizes(old(fields)@, occ),
    ensures
        summarizes(final(fields)@, occ.push((path@, kind@))),
{
    let ghost old_f = fields@;
    let ghost x: Occurrence = (path@, kind@);
    let ghost occ2 = occ.push(x);
    proof {
        lemma_push_occ(occ, x);
    }
    let pos = lower_bound_fields(fields, path);
    let mut found = false;
    if pos < fields.len() {
        found = crate::text::chars_eq_str(path, fields[pos].path.as_str());
    }
    if found {
        let mut e = fields.remove(pos);
        let ghost old_e = e;
        insert_sorted(&mut e.types, kind);
        e.count = if e.count == usize::MAX {
            usize::MAX
        } else {
            e.count + 1
        };
        fields.insert(pos, e);
        proof {
            let nf = fields@;
            assert(nf =~= old_f.update(pos as int, e));
            assert(old_e == old_f[pos as int]);
            assert(old_e.path@ == path@);
            assert(paths_view(nf) =~= paths_view(old_f));
            assert forall|j: int| 0 <= j < nf.len() implies has_path(occ2, #[trigger] nf[j].path@) by {
                assert(nf[j].path@ == old_f[j].path@);
                assert(has_path(occ, old_f[j].path@));
            }
            assert forall|p: Seq<char>| has_path(occ2, p) implies exists|j: int| 0 <= j < nf.len() && #[trigger] nf[j].path@ == p by {
                if p == path@ {
                    assert(nf[pos as int].path@ == p);
                } else {
                    assert(has_path(occ, p));
                    let j = choose|j: int| 0 <= j < old_f.len() && #[trigger] old_f[j].path@ == p;
                    assert(nf[j].path@ == p);
                }
            }
            assert forall|j: int| 0 <= j < nf.len() implies strictly_sorted(types_view(#[trigger] nf[j])) by {
                if j != pos {
                    assert(nf[j] == old_f[j]);
                }
            }
            assert forall|j: int, t: Seq<char>| 0 <= j < nf.len() implies (types_view(nf[j]).contains(t) <==> has_occ(occ2, nf[j].path@, t)) by {
                if j != pos {
                    assert(nf[j] == old_f[j]);
                    assert(types_view(old_f[j]).contains(t) <==> has_occ(occ, old_f[j].path@, t));
                    lemma_lt_irreflexive(path@);
                    if old_f[j].path@ == path@ {
                        // distinct paths in a strictly sorted list
                        if j < pos {
                            assert(seq_lt(paths_view(old_f)[j], paths_view(old_f)[pos as int]));
                        } else {
                            assert(seq_lt(paths_view(old_f)[pos as int], paths_view(old_f)[j]));
                        }
                    }
                } else {
                    assert(types_view(old_e).contains(t) <==> has_occ(occ, old_e.path@, t));
                }
            }
            assert forall|j: int| 0 <= j < nf.len() implies (#[trigger] nf[j]).count == capped(count_at(occ2, nf[j].path@)) by {
                if j != pos {
                    assert(nf[j] == old_f[j]);
                    if old_f[j].path@ == path@ {
                        lemma_lt_irreflexive(path@);
                        if j < pos {
                            assert(seq_lt(paths_view(old_f)[j], paths_view(old_f)[pos as int]));
                        } else {
                            assert(seq_lt(paths_view(old_f)[pos as int], paths_view(old_f)[j]));
                        }
                    }
                }
            }
        }
    } else {
        let mut types: Vec<String> = Vec::new();
        types.push(kind.to_owned());
        let e = FieldSummary { path: string_from_chars(path), types, count: 1 };
        fields.insert(pos, e);
        proof {
            let nf = fields@;
            assert(nf =~= old_f.insert(pos as int, e));
            let pv = paths_view(old_f);
            let npv = paths_view(nf);
            assert(npv =~= pv.insert(pos as int, path@));
            if pos < old_f.len() {
                lemma_lt_total(pv[pos as int], path@);
                assert(pv[pos as int] != path@);
                assert(seq_lt(path@, pv[pos as int]));
            }
            // the new path did not occur before
            assert(!has_path(occ, path@)) by {
                if has_path(occ, path@) {
                    let j = choose|j: int| 0 <= j < old_f.len() && #[trigger] old_f[j].path@ == path@;
                    lemma_lt_irreflexive(path@);
                    if j < pos {
                        assert(seq_lt(old_f[j].path@, path@));
                    } else if j > pos {
                        assert(seq_lt(pv[pos as int], pv[j]));
                        lemma_lt_transitive(path@, pv[pos as int], pv[j]);
                    }
                }
            }
            assert forall|i: int, j: int| 0 <= i < j < npv.len() implies seq_lt(#[trigger] npv[i], #[trigger] npv[j]) by {
                if j < pos {
                    assert(npv[i] == pv[i] && npv[j] == pv[j]);
                } else if j == pos {
                    assert(npv[i] == pv[i]);
                    assert(pv[i] == old_f[i].path@);
                } else if i == pos {
                    assert(npv[j] == pv[j - 1]);
                    if j - 1 > pos {
                        assert(seq_lt(pv[pos as int], pv[j - 1]));
                        lemma_lt_transitive(path@, pv[pos as int], pv[j - 1]);
                    }
                } else if i < pos {
                    assert(npv[i] == pv[i] && npv[j] == pv[j - 1]);
                } else {
                    assert(npv[i] == pv[i - 1] && npv[j] == pv[j - 1]);
                }
            }
            assert(strictly_sorted(paths_view(nf)));
            assert forall|j: int| 0 <= j < nf.len() implies has_path(occ2, #[trigger] nf[j].path@) by {
                if j < pos {
                    assert(nf[j] == old_f[j]);
                } else if j > pos {
                    assert(nf[j] == old_f[j - 1]);
                }
            }
            assert forall|p: Seq<char>| has_path(occ2, p) implies exists|j: int| 0 <= j < nf.len() && #[trigger] nf[j].path@ == p by {
                if p == path@ {
                    assert(nf[pos as int].path@ == p);
                } else {
                    let j = choose|j: int| 0 <= j < old_f.len() && #[trigger] old_f[j].path@ == p;
                    if j < pos {
                        assert(nf[j].path@ == p);
                    } else {
                        assert(nf[j + 1].path@ == p);
                    }
                }
            }
            assert(types_view(e) =~= seq![kind@]);
            assert forall|j: int| 0 <= j < nf.len() implies strictly_sorted(types_view(#[trigger] nf[j])) by {
                if j < pos {
                    assert(nf[j] == old_f[j]);
                } else if j > pos {
                    assert(nf[j] == old_f[j - 1]);
                }
            }
            assert forall|j: int, t: Seq<char>| 0 <= j < nf.len() implies (types_view(nf[j]).contains(t) <==> has_occ(occ2, nf[j].path@, t)) by {
                if j < pos {
                    assert(nf[j] == old_f[j]);
                    assert(types_view(old_f[j]).contains(t) <==> has_occ(occ, old_f[j].path@, t));
                } else if j > pos {
                    assert(nf[j] == old_f[j - 1]);
                    assert(types_view(old_f[j - 1]).contains(t) <==> has_occ(occ, old_f[j - 1].path@, t));
                } else {
                    if has_occ(occ, path@, t) {
                        let i = choose|i: int| 0 <= i < occ.len() && (#[trigger] occ[i]) == (path@, t);
                        assert(occ[i].0 == path@);
                    }
                    if types_view(e).contains(t) {
                        assert(t == kind@);
                    }
                    if t == kind@ {
                        assert(types_view(e)[0] == t);
                    }
                }
            }
            assert(count_at(occ, path@) == 0) by {
                lemma_count_zero(occ, path@);
            }
            assert forall|j: int| 0 <= j < nf.len() implies (#[trigger] nf[j]).count == capped(count_at(occ2, nf[j].path@)) by {
                if j < pos {
                    assert(nf[j] == old_f[j]);
                    assert(old_f[j].path@ != path@);
                } else if j > pos {
                    assert(nf[j] == old_f[j - 1]);
                    assert(old_f[j - 1].path@ != path@) by {
                        assert(seq_lt(path@, pv[j - 1])) by {
                            if j - 1 > pos {
                                assert(seq_lt(pv[pos as int], pv[j - 1]));
                                lemma_lt_transitive(path@, pv[pos as int], pv[j - 1]);
                            }
                        }
                        lemma_lt_irreflexive(path@);
                    }
                }
            }
        }
    }
}

/// A path with no occurrence has count 0.
proof fn lemma_count_zero(occ: Seq<Occurrence>, p: Seq<char>)
    requires
        !has_path(occ, p),
    ensures
        count_at(occ, p) == 0,
    decreases occ.len(),
{
    if occ.len() > 0 {
        assert(!has_path(occ.drop_last(), p)) by {
            if has_path(occ.drop_last(), p) {
                let i = choose|i: int| 0 <= i < occ.drop_last().len() && (#[trigger] occ.drop_last()[i]).0 == p;
                assert(occ[i] == occ.drop_last()[i]);
            }
        }
        lemma_count_zero(occ.drop_last(), p);
        assert(occ[occ.len() - 1] == occ.last());
    }
}

/// How an object key appears in a path (see `key_segment_spec`).
fn key_segment(key: &Value) -> (r: String)
    ensures
        r@ == key_segment_spec(*key),
{
    match key {
        Value::TStr(bytes) => lossy_string(bytes.as_slice()),
        _ => match format_value(key, false) {
            Ok(t) => t,
            Err(_) => "<key>".to_owned(),
        },
    }
}

/// The path of an object member.
pub fn join_path(parent: &Vec<char>, segment: &Vec<char>) -> (r: Vec<char>)
    ensures
        r@ == join_path_spec(parent@, segment@),
{
    if parent.len() == 0 {
        return crate::shortcuts::string_chars_range(segment, 0, segment.len());
    }
    let mut r = crate::shortcuts::string_chars_range(parent, 0, parent.len());
    r.push('.');
    let mut i: usize = 0;
    proof {
        reveal_strlit(".");
    }
    while i < segment.len()
        invariant
            i <= segment.len(),
            r@ == parent@ + "."@ + segment@.take(i as int),
        decreases segment.len() - i,
    {
        r.push(segment[i]);
        assert(r@ =~= parent@ + "."@ + segment@.take(i + 1));
        i = i + 1;
    }
    assert(segment@.take(segment.len() as int) == segment@);
    r
}

fn array_child(path: &Vec<char>) -> (r: Vec<char>)
    ensures
        r@ == array_child_spec(path@),
{
    proof {
        reveal_strlit("[]");
    }
    let mut r = crate::shortcuts::string_chars_range(path, 0, path.len());
    r.push('[');
    r.push(']');
    assert(r@ =~= array_child_spec(path@));
    r
}

/// Records the occurrences in `value`, reached at `path`.
fn visit_value(value: &Value, path: &Vec<char>, fields: &mut Vec<FieldSummary>, Ghost(occ): Ghost<Seq<Occurrence>>)
    requires
        summarizes(old(fields)@, occ),
    ensures
        summarizes(final(fields)@, occ + occ_value(*value, path@)),
    decreases value,
{
    let ghost own: Seq<Occurrence> = if path@.len() > 0 {
        seq![(path@, kind_spec(*value))]
    } else {
        Seq::empty()
    };
    if path.len() > 0 {
        let k = kind(value);
        record(fields, path, k, Ghost(occ));
        assert(occ.push((path@, k@)) =~= occ + own);
    } else {
        assert(occ =~= occ + own);
    }
    let ghost cur = occ + own;
    match value {
        Value::Obj(entries) => {
            let mut i: usize = 0;
            let ghost mut acc: Seq<Occurrence> = Seq::empty();
            assert(acc + occ_entries(entries@, 0, path@) =~= occ_entries(entries@, 0, path@));
            while i < entries.len()
                invariant
                    i <= entries.len(),
                    *value == Value::Obj(*entries),
                    summarizes(fields@, cur + acc),
                    acc + occ_entries(entries@, i as int, path@) == occ_entries(entries@, 0, path@),
                decreases entries.len() - i,
            {
                let seg = key_segment(&entries[i].0);
                let segc = to_chars(seg.as_str());
                let child = join_path(path, &segc);
                proof {
                    assert(decreases_to!(*value => value->Obj_0));
                    assert(decreases_to!(*entries => entries@));
                    assert(decreases_to!(entries@ => entries@[i as int]));
                    assert(decreases_to!(entries@[i as int] => entries@[i as int].1));
                }
                visit_value(&entries[i].1, &child, fields, Ghost(cur + acc));
                proof {
                    let piece = occ_value(entries@[i as int].1, child@);
                    assert(occ_entries(entries@, i as int, path@) == piece + occ_entries(entries@, i + 1, path@));
                    assert(cur + acc + piece =~= cur + (acc + piece));
                    assert(acc + piece + occ_entries(entries@, i + 1, path@) =~= acc + (piece + occ_entries(entries@, i + 1, path@)));
                    acc = acc + piece;
                }
                i = i + 1;
            }
            proof {
                assert(occ_entries(entries@, i as int, path@) == Seq::<Occurrence>::empty());
                assert(acc =~= occ_entries(entries@, 0, path@));
                assert(occ + occ_value(*value, path@) =~= cur + acc);
            }
        },
        Value::Arr(items) => {
            let child = array_child(path);
            let mut i: usize = 0;
            let ghost mut acc: Seq<Occurrence> = Seq::empty();
            assert(acc + occ_items(items@, 0, child@) =~= occ_items(items@, 0, child@));
            while i < items.len()
                invariant
                    i <= items.len(),
                    *value == Value::Arr(*items),
                    summarizes(fields@, cur + acc),
                    child@ == array_child_spec(path@),
                    acc + occ_items(items@, i as int, child@) == occ_items(items@, 0, child@),
                decreases items.len() - i,
            {
                proof {
                    assert(decreases_to!(*value => value->Arr_0));
                    assert(decreases_to!(*items => items@));
                    assert(decreases_to!(items@ => items@[i as int]));
                }
                visit_value(&items[i], &child, fields, Ghost(cur + acc));
                proof {
                    let piece = occ_value(items@[i as int], child@);
                    assert(occ_items(items@, i as int, child@) == piece + occ_items(items@, i + 1, child@));
                    assert(cur + acc + piece =~= cur + (acc + piece));
                    assert(acc + piece + occ_items(items@, i + 1, child@) =~= acc + (piece + occ_items(items@, i + 1, child@)));
                    acc = acc + piece;
                }
                i = i + 1;
            }
            proof {
                assert(occ_items(items@, i as int, child@) == Seq::<Occurrence>::empty());
                assert(acc =~= occ_items(items@, 0, child@));
                assert(occ + occ_value(*value, path@) =~= cur + acc);
            }
        },
        _ => {
            assert(occ + occ_value(*value, path@) =~= cur);
        },
    }
}

/// The fields of the first `max_documents` documents: every path that
/// occurs below a document root, sorted, with its sorted distinct types
/// and its number of occurrences.
pub fn infer_schema(values: &[Value], max_documents: usize) -> (r: Vec<FieldSummary>)
    ensures
        summarizes(
            r@,
            occ_docs(
                values@,
                if max_documents < values@.len() {
                    max_documents as int
                } else {
                    values@.len() as int
                },
            ),
        ),
{
    let n = if max_documents < values.len() {
        max_documents
    } else {
        values.len()
    };
    let mut fields: Vec<FieldSummary> = Vec::new();
    let empty: Vec<char> = Vec::new();
    let mut i: usize = 0;
    proof {
        assert(summarizes(fields@, occ_docs(values@, 0))) by {
            assert(paths_view(fields@) =~= Seq::<Seq<char>>::empty());
        }
    }
    while i < n
        invariant
            i <= n <= values.len(),
            empty@ == Seq::<char>::empty(),
            summarizes(fields@, occ_docs(values@, i as int)),
        decreases n - i,
    {
        visit_value(&values[i], &empty, &mut fields, Ghost(occ_docs(values@, i as int)));
        i = i + 1;
    }
    fields
}

} // verus!
