//! Fixture discovery: a deterministic walk of a mode's fixture tree,
//! filtered down to the regular files whose extension the mode admits.
//!
//! The walk itself is the one outside call of this module; everything the
//! walk returns is then filtered by verified code, so the list handed on is
//! exactly the filter of whatever the tree held.

use vstd::prelude::*;
use crate::mode::Mode;
use crate::config::Config;
use crate::paths::extension_of;

verus! {

/// The views of a list of byte strings.
pub open spec fn views_of(s: Seq<Vec<u8>>) -> Seq<Seq<u8>> {
    s.map_values(|v: Vec<u8>| v@)
}

/// The views of a list of walked entries: each a path with its
/// is-regular-file flag.
pub open spec fn entry_views_of(s: Seq<(Vec<u8>, bool)>) -> Seq<(Seq<u8>, bool)> {
    s.map_values(|e: (Vec<u8>, bool)| (e.0@, e.1))
}

/// The bytes of `"sol"`, the primary fixture extension.
pub open spec fn ext_sol() -> Seq<u8> {
    seq![115u8, 111u8, 108u8]
}

/// The bytes of `"yul"`, the secondary fixture extension.
pub open spec fn ext_yul() -> Seq<u8> {
    seq![121u8, 117u8, 108u8]
}

/// Whether a path carries an extension `mode` admits: `sol`, or `yul` where
/// the mode admits it.
pub open spec fn matches_filter(p: Seq<u8>, mode: Mode) -> bool {
    extension_of(p) == Some(ext_sol()) || (mode.admits_yul_spec() && extension_of(p) == Some(
        ext_yul(),
    ))
}

/// Whether a walked entry is a fixture of `mode`: a regular file whose
/// extension the mode admits. A directory or special file is never a
/// fixture, whatever it is named.
pub open spec fn admitted(e: (Seq<u8>, bool), mode: Mode) -> bool {
    e.1 && matches_filter(e.0, mode)
}

/// What discovery yields from a walked entry list: the paths of the entries
/// that are fixtures of the mode, in walk order.
pub open spec fn discovered(entries: Seq<(Seq<u8>, bool)>, mode: Mode) -> Seq<Seq<u8>> {
    entries.filter(|e: (Seq<u8>, bool)| admitted(e, mode)).map_values(
        |e: (Seq<u8>, bool)| e.0,
    )
}

/// Discovery is a function of the walked tree alone: equal entry lists yield
/// equal discovered lists, independent of anything else in the process.
pub proof fn lemma_discovery_deterministic(
    entries1: Seq<(Seq<u8>, bool)>,
    entries2: Seq<(Seq<u8>, bool)>,
    mode: Mode,
)
    requires
        entries1 == entries2,
    ensures
        discovered(entries1, mode) == discovered(entries2, mode),
{
}

/// Extension filter on one walked path.
pub fn entry_matches(p: &Vec<u8>, mode: Mode) -> (r: bool)
    ensures
        r == matches_filter(p@, mode),
{
    match crate::paths::extension(p) {
        Some(e) => {
            let mut sol: Vec<u8> = Vec::new();
            let a: [u8; 3] = [115, 111, 108];
            sol.extend_from_slice(&a);
            let mut yul: Vec<u8> = Vec::new();
            let b: [u8; 3] = [121, 117, 108];
            yul.extend_from_slice(&b);
            proof {
                assert(sol@ =~= ext_sol());
                assert(yul@ =~= ext_yul());
            }
            if crate::paths::eq_bytes(&e, &sol) {
                true
            } else {
                mode.admits_yul() && crate::paths::eq_bytes(&e, &yul)
            }
        },
        None => false,
    }
}

/// Keeps the paths of the walked entries that are fixtures of the mode —
/// regular files with an admitted extension — in walk order.
pub fn filter_fixtures(entries: &Vec<(Vec<u8>, bool)>, mode: Mode) -> (r: Vec<Vec<u8>>)
    ensures
        views_of(r@) == discovered(entry_views_of(entries@), mode),
{
    let pred = Ghost(|e: (Seq<u8>, bool)| admitted(e, mode));
    let mut r: Vec<Vec<u8>> = Vec::new();
    let mut i: usize = 0;
    proof {
        assert(entry_views_of(entries@.take(0)).filter(pred@) =~= Seq::<(Seq<u8>, bool)>::empty())
            by {
            reveal_with_fuel(Seq::filter, 2);
            assert(entry_views_of(entries@.take(0)) =~= Seq::<(Seq<u8>, bool)>::empty());
        }
        assert(views_of(r@) =~= discovered(entry_views_of(entries@.take(0)), mode));
    }
    while i < entries.len()
        invariant
            i <= entries@.len(),
            pred@ == (|e: (Seq<u8>, bool)| admitted(e, mode)),
            views_of(r@) == discovered(entry_views_of(entries@.take(i as int)), mode),
        decreases entries@.len() - i,
    {
        let ghost prefix = entry_views_of(entries@.take(i as int));
        let ghost r_before = r@;
        let e = &entries[i];
        let ghost x = (e.0@, e.1);
        if e.1 && entry_matches(&e.0, mode) {
            let n = e.0.len();
            let copy = crate::paths::copy_range(&e.0, 0, n);
            proof {
                assert(copy@ =~= e.0@);
            }
            r.push(copy);
            proof {
                assert(views_of(r@) =~= views_of(r_before).push(e.0@));
            }
        }
        i = i + 1;
        proof {
            let next = entry_views_of(entries@.take(i as int));
            assert(next =~= prefix + seq![x]);
            Seq::filter_distributes_over_add(prefix, seq![x], pred@);
            reveal_with_fuel(Seq::filter, 2);
            assert(seq![x].drop_last() =~= Seq::<(Seq<u8>, bool)>::empty());
            if pred@(x) {
                assert(next.filter(pred@) =~= prefix.filter(pred@) + seq![x]);
                assert(views_of(r@) =~= discovered(prefix, mode).push(x.0));
                assert(discovered(next, mode) =~= discovered(prefix, mode).push(x.0));
            } else {
                assert(next.filter(pred@) =~= prefix.filter(pred@));
                assert(discovered(next, mode) =~= discovered(prefix, mode));
            }
        }
    }
    proof {
        assert(entries@.take(i as int) =~= entries@);
    }
    r
}

/// Relies on `walkdir::WalkDir` with `sort_by_file_name`: a depth-first walk
/// of the tree under `root` that yields every entry once — its path and
/// whether it is a regular file — siblings ordered by file name, so that one
/// tree always yields one fixed entry list. An unreadable entry ends the
/// walk with that error's text instead.
#[verifier::external_body]
fn walk_sorted(root: &Vec<u8>) -> (r: Result<Vec<(Vec<u8>, bool)>, Vec<u8>>) {
    let root = String::from_utf8_lossy(root).into_owned();
    let mut out: Vec<(Vec<u8>, bool)> = Vec::new();
    for entry in walkdir::WalkDir::new(&root).sort_by_file_name() {
        match entry {
            Ok(e) => {
                let path = e.path().to_string_lossy().into_owned().into_bytes();
                out.push((path, e.file_type().is_file()));
            },
            Err(e) => return Err(e.to_string().into_bytes()),
        }
    }
    Ok(out)
}

/// Walks the mode's fixture tree under the configured root and returns the
/// matching fixture paths in walk order. Whatever the tree held, every
/// returned path passes the mode's extension filter, and the list is exactly
/// the regular-file filter of the walked entries. A walk error — a broken
/// fixture tree — is returned for the caller to treat as fatal.
pub fn collect_tests(config: &Config, mode: Mode) -> (r: Result<Vec<Vec<u8>>, Vec<u8>>)
    ensures
        r matches Ok(v) ==> forall|j: int|
            0 <= j < v@.len() ==> matches_filter(#[trigger] v@[j]@, mode),
{
    let sub = mode.subdir();
    let dir = crate::paths::join(&config.root, &sub);
    match walk_sorted(&dir) {
        Ok(entries) => {
            let v = filter_fixtures(&entries, mode);
            proof {
                let pred = |e: (Seq<u8>, bool)| admitted(e, mode);
                let es = entry_views_of(entries@);
                assert forall|j: int| 0 <= j < v@.len() implies matches_filter(
                    #[trigger] v@[j]@,
                    mode,
                ) by {
                    assert(views_of(v@).len() == v@.len());
                    assert(discovered(es, mode).len() == es.filter(pred).len());
                    assert(0 <= j < es.filter(pred).len());
                    es.lemma_filter_pred(pred, j);
                    assert(views_of(v@)[j] == v@[j]@);
                    assert(discovered(es, mode)[j] == es.filter(pred)[j].0);
                }
            }
            Ok(v)
        },
        Err(e) => Err(e),
    }
}

} // verus!
