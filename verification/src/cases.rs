//! Descriptor construction: revision fan-out, display names, skip recording,
//! and the per-mode case list.
//!
//! A `TestCase` is the fully built, ready-to-schedule description of one run
//! of the compiler under test. Building it never runs the compiler; the
//! mode's check function runs eagerly (its verdict comes in as a value), and
//! everything the deferred run needs is captured in the descriptor's fields.

use vstd::prelude::*;
use crate::config::Config;
use crate::mode::Mode;
use crate::paths::{parent_of, rel_of};

verus! {

/// Verdict of a mode's check or run function.
pub enum TestResult {
    /// The case passed, or nothing forbids running it.
    Passed,
    /// The case failed.
    Failed,
    /// The case is not to run, with a human-readable reason.
    Skipped(Vec<u8>),
}

/// The skip reason a check verdict carries, if any.
pub open spec fn skip_reason(check: TestResult) -> Option<Seq<u8>> {
    match check {
        TestResult::Skipped(reason) => Some(reason@),
        _ => None,
    }
}

/// One ready-to-schedule test case.
pub struct TestCase {
    /// The mode that discovered the fixture.
    pub mode: Mode,
    /// Absolute path of the fixture file.
    pub path: Vec<u8>,
    /// Directory of the fixture relative to the project root; mirrored under
    /// the output base as the case's artifact directory.
    pub relative_dir: Vec<u8>,
    /// The unique, stable name the case is sorted and reported by.
    pub display_name: Vec<u8>,
    /// The revision tag this case runs under, for fixtures that declare
    /// revisions.
    pub revision: Option<Vec<u8>>,
    /// Why the case is not to run, when the check function said so. A case
    /// with a reason is registered but never executed.
    pub ignore_reason: Option<Vec<u8>>,
}

/// The mathematical value of a `TestCase`.
pub struct TestCaseView {
    pub mode: Mode,
    pub path: Seq<u8>,
    pub relative_dir: Seq<u8>,
    pub display_name: Seq<u8>,
    pub revision: Option<Seq<u8>>,
    pub ignore_reason: Option<Seq<u8>>,
}

/// The view of an optional byte string.
pub open spec fn opt_bytes(o: Option<Vec<u8>>) -> Option<Seq<u8>> {
    match o {
        Some(v) => Some(v@),
        None => None,
    }
}

impl View for TestCase {
    type V = TestCaseView;

    open spec fn view(&self) -> TestCaseView {
        TestCaseView {
            mode: self.mode,
            path: self.path@,
            relative_dir: self.relative_dir@,
            display_name: self.display_name@,
            revision: opt_bytes(self.revision),
            ignore_reason: opt_bytes(self.ignore_reason),
        }
    }
}

/// The display name of a case: `[` tag `] ` relative path, and `#` revision
/// for a case expanded from a declared revision.
pub open spec fn display_name_spec(mode: Mode, rel: Seq<u8>, revision: Option<Seq<u8>>) -> Seq<u8> {
    seq![91u8] + mode.tag_spec() + seq![93u8, 32u8] + rel + rev_suffix(revision)
}

/// The `#`-revision suffix of a display name; empty without a revision.
pub open spec fn rev_suffix(revision: Option<Seq<u8>>) -> Seq<u8> {
    match revision {
        Some(r) => seq![35u8] + r,
        None => Seq::empty(),
    }
}

/// A fresh copy of a byte string.
pub fn clone_bytes(v: &Vec<u8>) -> (r: Vec<u8>)
    ensures
        r@ == v@,
{
    let n = v.len();
    let r = crate::paths::copy_range(v, 0, n);
    proof {
        assert(v@.subrange(0, v@.len() as int) =~= v@);
    }
    r
}

/// A fresh copy of an optional byte string.
pub fn clone_opt_bytes(o: &Option<Vec<u8>>) -> (r: Option<Vec<u8>>)
    ensures
        opt_bytes(r) == opt_bytes(*o),
{
    match o {
        Some(v) => Some(clone_bytes(v)),
        None => None,
    }
}

/// Builds a case's display name from its relative path and revision.
pub fn display_name(mode: Mode, rel: &Vec<u8>, revision: &Option<Vec<u8>>) -> (r: Vec<u8>)
    ensures
        r@ == display_name_spec(mode, rel@, opt_bytes(*revision)),
{
    let mut r: Vec<u8> = Vec::new();
    r.push(91);
    let tag = mode.tag();
    r.extend_from_slice(tag.as_slice());
    r.push(93);
    r.push(32);
    r.extend_from_slice(rel.as_slice());
    match revision {
        Some(rev) => {
            r.push(35);
            r.extend_from_slice(rev.as_slice());
        },
        None => {},
    }
    proof {
        assert(r@ =~= display_name_spec(mode, rel@, opt_bytes(*revision)));
    }
    r
}

/// The revision fan-out of one fixture: one case per declared revision in
/// declared order for the Ui mode, and exactly one unrevisioned case
/// otherwise — for a Ui fixture that declares nothing, and always for the
/// solc modes, whose header dialect has no revisions.
pub open spec fn expanded(mode: Mode, revs: Seq<Seq<u8>>) -> Seq<Option<Seq<u8>>> {
    if mode is Ui && revs.len() > 0 {
        revs.map_values(|r: Seq<u8>| Some(r))
    } else {
        seq![None]
    }
}

/// The views of a list of optional byte strings.
pub open spec fn opt_views_of(s: Seq<Option<Vec<u8>>>) -> Seq<Option<Seq<u8>>> {
    s.map_values(|o: Option<Vec<u8>>| opt_bytes(o))
}

/// Fans a fixture's declared revisions out into the revision slot of each of
/// its cases.
pub fn expand_revisions(mode: Mode, revisions: &Vec<Vec<u8>>) -> (r: Vec<Option<Vec<u8>>>)
    ensures
        opt_views_of(r@) == expanded(mode, crate::discovery::views_of(revisions@)),
{
    let is_ui = match mode {
        Mode::Ui => true,
        _ => false,
    };
    if is_ui && revisions.len() > 0 {
        let mut r: Vec<Option<Vec<u8>>> = Vec::new();
        let mut i: usize = 0;
        while i < revisions.len()
            invariant
                i <= revisions@.len(),
                r@.len() == i,
                forall|j: int| 0 <= j < i ==> #[trigger] opt_bytes(r@[j]) == Some(revisions@[j]@),
            decreases revisions@.len() - i,
        {
            r.push(Some(clone_bytes(&revisions[i])));
            i = i + 1;
        }
        proof {
            assert(opt_views_of(r@) =~= expanded(mode, crate::discovery::views_of(revisions@)));
        }
        r
    } else {
        let mut r: Vec<Option<Vec<u8>>> = Vec::new();
        r.push(None);
        proof {
            assert(opt_views_of(r@) =~= seq![None::<Seq<u8>>]);
        }
        r
    }
}

/// Whether a descriptor can be built for a fixture: its path must lie under
/// the project root and its relative path must be non-empty, so that it has
/// a parent directory. Discovery only yields such paths; anything else is an
/// invariant violation the caller treats as fatal.
pub open spec fn case_buildable(path: Seq<u8>, root: Seq<u8>) -> bool {
    match rel_of(path, root) {
        Some(rel) => rel.len() > 0,
        None => false,
    }
}

/// The relative path of a fixture that lies under the root; the empty path
/// for one that does not (such a fixture is never built).
pub open spec fn rel_part(path: Seq<u8>, root: Seq<u8>) -> Seq<u8> {
    match rel_of(path, root) {
        Some(rel) => rel,
        None => Seq::empty(),
    }
}

/// The relative directory of a fixture: the parent of its relative path.
pub open spec fn rel_dir_of(path: Seq<u8>, root: Seq<u8>) -> Seq<u8> {
    match parent_of(rel_part(path, root)) {
        Some(d) => d,
        None => Seq::empty(),
    }
}

/// The descriptor built for one (fixture, revision) pair under a given check
/// verdict.
pub open spec fn case_spec(
    mode: Mode,
    path: Seq<u8>,
    root: Seq<u8>,
    revision: Option<Seq<u8>>,
    reason: Option<Seq<u8>>,
) -> TestCaseView {
    TestCaseView {
        mode,
        path,
        relative_dir: rel_dir_of(path, root),
        display_name: display_name_spec(mode, rel_part(path, root), revision),
        revision,
        ignore_reason: reason,
    }
}

/// Builds the descriptor for one (fixture, revision) pair.
///
/// The check function's verdict comes in as `check`; a `Skipped` verdict is
/// recorded as the ignore reason, and a case with an ignore reason is never
/// run. The error — a fixture that does not lie under the project root, or
/// whose relative path is empty — is a discovery invariant violation, fatal
/// for the caller.
pub fn build_case(
    config: &Config,
    mode: Mode,
    path: &Vec<u8>,
    revision: &Option<Vec<u8>>,
    check: &TestResult,
) -> (r: Result<TestCase, ()>)
    ensures
        case_buildable(path@, config@.root) ==> (r matches Ok(c) && c@ == case_spec(
            mode,
            path@,
            config@.root,
            opt_bytes(*revision),
            skip_reason(*check),
        )),
        !case_buildable(path@, config@.root) ==> r is Err,
{
    let rel = match crate::paths::relative_to(path, &config.root) {
        Some(rel) => rel,
        None => {
            return Err(());
        },
    };
    match crate::paths::parent_dir(&rel) {
        Some(relative_dir) => {
            let name = display_name(mode, &rel, revision);
            let ignore_reason = match check {
                TestResult::Skipped(reason) => Some(clone_bytes(reason)),
                _ => None,
            };
            Ok(
                TestCase {
                    mode,
                    path: clone_bytes(path),
                    relative_dir,
                    display_name: name,
                    revision: clone_opt_bytes(revision),
                    ignore_reason,
                },
            )
        },
        None => Err(()),
    }
}

/// A display name with a revision is the unrevisioned name followed by `#`
/// and the revision tag; without one it carries no suffix.
pub proof fn lemma_name_revision_suffix(mode: Mode, rel: Seq<u8>, r: Seq<u8>)
    ensures
        display_name_spec(mode, rel, Some(r)) == display_name_spec(mode, rel, None) + seq![35u8]
            + r,
{
    assert(display_name_spec(mode, rel, Some(r)) =~= display_name_spec(mode, rel, None)
        + seq![35u8] + r);
}

/// Display names identify their case: two cases whose mode, relative path or
/// revision differ have different display names, provided the relative paths
/// are free of the `#` separator. (A relative path holding `#` can collide
/// with a revision suffix — the one input this statement must leave out.)
pub proof fn lemma_display_names_distinct(
    m1: Mode,
    rel1: Seq<u8>,
    rev1: Option<Seq<u8>>,
    m2: Mode,
    rel2: Seq<u8>,
    rev2: Option<Seq<u8>>,
)
    requires
        !rel1.contains(35u8),
        !rel2.contains(35u8),
        m1 != m2 || rel1 != rel2 || rev1 != rev2,
    ensures
        display_name_spec(m1, rel1, rev1) != display_name_spec(m2, rel2, rev2),
{
    let n1 = display_name_spec(m1, rel1, rev1);
    let n2 = display_name_spec(m2, rel2, rev2);
    if n1 == n2 {
        // The names are [tag] rel #rev; peel the layers off one by one.
        if m1 != m2 {
            // Distinct tags differ at their first or sixth byte.
            assert(n1[1] == m1.tag_spec()[0]);
            assert(n2[1] == m2.tag_spec()[0]);
            if m1 is Ui || m2 is Ui {
                assert(n1[1] != n2[1]);
            } else {
                assert(n1[6] == m1.tag_spec()[5]);
                assert(n2[6] == m2.tag_spec()[5]);
                assert(n1[6] != n2[6]);
            }
            assert(false);
        }
        let l = 3 + m1.tag_spec().len() as int;
        let a = rel1 + rev_suffix(rev1);
        let b = rel2 + rev_suffix(rev2);
        assert(n1.skip(l) =~= a);
        assert(n2.skip(l) =~= b);
        assert(a == b);
        if rel1.len() < rel2.len() {
            // `a` continues after rel1 (the whole names have equal length),
            // and what follows can only open a revision suffix with `#`,
            // which rel2 cannot contain at that spot.
            let p = rel1.len() as int;
            assert(rev_suffix(rev1).len() > 0);
            assert(a[p] == 35u8);
            assert(b[p] == rel2[p]);
            assert(rel2[p] != 35u8);
            assert(false);
        }
        if rel2.len() < rel1.len() {
            let p = rel2.len() as int;
            assert(rev_suffix(rev2).len() > 0);
            assert(b[p] == 35u8);
            assert(a[p] == rel1[p]);
            assert(rel1[p] != 35u8);
            assert(false);
        }
        assert forall|k: int| 0 <= k < rel1.len() implies rel1[k] == rel2[k] by {
            assert(a[k] == rel1[k]);
            assert(b[k] == rel2[k]);
        }
        assert(rel1 =~= rel2);
        let s1 = rev_suffix(rev1);
        let s2 = rev_suffix(rev2);
        assert(s1 =~= a.skip(rel1.len() as int));
        assert(s2 =~= b.skip(rel2.len() as int));
        assert(s1 == s2);
        match (rev1, rev2) {
            (Some(r1), Some(r2)) => {
                assert(r1 =~= s1.skip(1));
                assert(r2 =~= s2.skip(1));
                assert(rev1 == rev2);
            },
            (None, None) => {
                assert(rev1 == rev2);
            },
            _ => {
                assert(s1.len() != s2.len());
            },
        }
        assert(false);
    }
}

/// Whether `name` is a display name of `mode`: built from some relative path
/// and revision under that mode's tag.
pub open spec fn named_for_mode(mode: Mode, name: Seq<u8>) -> bool {
    exists|rel: Seq<u8>, rv: Option<Seq<u8>>| name == display_name_spec(mode, rel, rv)
}

/// Display names of different modes never collide, whatever their relative
/// paths and revisions: the tag between the brackets differs.
pub proof fn lemma_distinct_mode_names(m1: Mode, m2: Mode, name1: Seq<u8>, name2: Seq<u8>)
    requires
        m1 != m2,
        named_for_mode(m1, name1),
        named_for_mode(m2, name2),
    ensures
        name1 != name2,
{
    let (rel1, rv1) = choose|rel: Seq<u8>, rv: Option<Seq<u8>>|
        name1 == display_name_spec(m1, rel, rv);
    let (rel2, rv2) = choose|rel: Seq<u8>, rv: Option<Seq<u8>>|
        name2 == display_name_spec(m2, rel, rv);
    if name1 == name2 {
        assert(name1[1] == m1.tag_spec()[0]);
        assert(name2[1] == m2.tag_spec()[0]);
        if m1 is Ui || m2 is Ui {
            assert(name1[1] != name2[1]);
        } else {
            assert(name1[6] == m1.tag_spec()[5]);
            assert(name2[6] == m2.tag_spec()[5]);
            assert(name1[6] != name2[6]);
        }
        assert(false);
    }
}

/// The revision fan-out of one fixture, seen on the finished descriptors:
/// a Ui fixture declaring `K >= 1` distinct revisions yields exactly `K`
/// cases, each named with a distinct `#`-revision suffix in declared order;
/// a fixture declaring none yields exactly one case with the bare name.
pub proof fn lemma_revision_fanout(
    path: Seq<u8>,
    root: Seq<u8>,
    revs: Seq<Seq<u8>>,
    reason: Option<Seq<u8>>,
)
    requires
        forall|i: int, j: int| 0 <= i < j < revs.len() ==> revs[i] != revs[j],
    ensures
        revs.len() > 0 ==> {
            let cases = fixture_cases_spec(Mode::Ui, path, root, revs, reason);
            &&& cases.len() == revs.len()
            &&& forall|i: int|
                0 <= i < revs.len() ==> (#[trigger] cases[i]).display_name == display_name_spec(
                    Mode::Ui,
                    rel_part(path, root),
                    None,
                ) + seq![35u8] + revs[i]
            &&& forall|i: int, j: int|
                0 <= i < j < revs.len() ==> (#[trigger] cases[i]).display_name
                    != (#[trigger] cases[j]).display_name
        },
        revs.len() == 0 ==> {
            let cases = fixture_cases_spec(Mode::Ui, path, root, revs, reason);
            &&& cases.len() == 1
            &&& cases[0].display_name == display_name_spec(Mode::Ui, rel_part(path, root), None)
        },
{
    let rel = rel_part(path, root);
    let cases = fixture_cases_spec(Mode::Ui, path, root, revs, reason);
    if revs.len() > 0 {
        assert forall|i: int| 0 <= i < revs.len() implies (#[trigger] cases[i]).display_name
            == display_name_spec(Mode::Ui, rel, None) + seq![35u8] + revs[i] by {
            assert(expanded(Mode::Ui, revs)[i] == Some(revs[i]));
            lemma_name_revision_suffix(Mode::Ui, rel, revs[i]);
        }
        assert forall|i: int, j: int| 0 <= i < j < revs.len() implies (#[trigger] cases[i]).display_name
            != (#[trigger] cases[j]).display_name by {
            let base = display_name_spec(Mode::Ui, rel, None);
            assert(cases[i].display_name == base + seq![35u8] + revs[i]);
            assert(cases[j].display_name == base + seq![35u8] + revs[j]);
            if cases[i].display_name == cases[j].display_name {
                assert(revs[i] =~= (base + seq![35u8] + revs[i]).skip(base.len() + 1 as int));
                assert(revs[j] =~= (base + seq![35u8] + revs[j]).skip(base.len() + 1 as int));
                assert(revs[i] == revs[j]);
                assert(false);
            }
        }
    } else {
        assert(expanded(Mode::Ui, revs) =~= seq![None::<Seq<u8>>]);
        assert(cases[0] == case_spec(Mode::Ui, path, root, None, reason));
    }
}

/// A fresh copy of a test case.
pub fn clone_case(c: &TestCase) -> (r: TestCase)
    ensures
        r@ == c@,
{
    TestCase {
        mode: c.mode,
        path: clone_bytes(&c.path),
        relative_dir: clone_bytes(&c.relative_dir),
        display_name: clone_bytes(&c.display_name),
        revision: clone_opt_bytes(&c.revision),
        ignore_reason: clone_opt_bytes(&c.ignore_reason),
    }
}

/// The views of a list of test cases.
pub open spec fn case_views_of(s: Seq<TestCase>) -> Seq<TestCaseView> {
    s.map_values(|c: TestCase| c@)
}

/// The views of a list of revision lists.
pub open spec fn rev_views_of(s: Seq<Vec<Vec<u8>>>) -> Seq<Seq<Seq<u8>>> {
    s.map_values(|v: Vec<Vec<u8>>| crate::discovery::views_of(v@))
}

/// The skip reasons of a list of check verdicts.
pub open spec fn reasons_of(s: Seq<TestResult>) -> Seq<Option<Seq<u8>>> {
    s.map_values(|c: TestResult| skip_reason(c))
}

/// All the cases one fixture yields: its revision fan-out, each revision
/// built into a descriptor under the fixture's check verdict.
pub open spec fn fixture_cases_spec(
    mode: Mode,
    path: Seq<u8>,
    root: Seq<u8>,
    revs: Seq<Seq<u8>>,
    reason: Option<Seq<u8>>,
) -> Seq<TestCaseView> {
    expanded(mode, revs).map_values(|rv: Option<Seq<u8>>| case_spec(mode, path, root, rv, reason))
}

/// The cases of the first `n` fixtures, in discovery order.
pub open spec fn cases_upto(
    mode: Mode,
    root: Seq<u8>,
    fixtures: Seq<Seq<u8>>,
    revs: Seq<Seq<Seq<u8>>>,
    reasons: Seq<Option<Seq<u8>>>,
    n: int,
) -> Seq<TestCaseView>
    decreases n,
{
    if n <= 0 {
        Seq::empty()
    } else {
        cases_upto(mode, root, fixtures, revs, reasons, n - 1) + fixture_cases_spec(
            mode,
            fixtures[n - 1],
            root,
            revs[n - 1],
            reasons[n - 1],
        )
    }
}

/// The whole case list one mode contributes: every discovered fixture fanned
/// out and built, fixtures in discovery order, revisions in declared order.
pub open spec fn mode_cases_spec(
    mode: Mode,
    root: Seq<u8>,
    fixtures: Seq<Seq<u8>>,
    revs: Seq<Seq<Seq<u8>>>,
    reasons: Seq<Option<Seq<u8>>>,
) -> Seq<TestCaseView> {
    cases_upto(mode, root, fixtures, revs, reasons, fixtures.len() as int)
}

/// Whether every fixture of a list can be built into a descriptor.
pub open spec fn all_buildable(fixtures: Seq<Seq<u8>>, root: Seq<u8>) -> bool {
    forall|i: int| 0 <= i < fixtures.len() ==> case_buildable(#[trigger] fixtures[i], root)
}

/// Whether `name` is a display name of fixture `i`: built from that
/// fixture's relative path, under any revision.
pub open spec fn name_of_fixture(
    mode: Mode,
    root: Seq<u8>,
    fixtures: Seq<Seq<u8>>,
    name: Seq<u8>,
    i: int,
) -> bool {
    exists|rv: Option<Seq<u8>>| name == display_name_spec(mode, rel_part(fixtures[i], root), rv)
}

proof fn lemma_names_distinct_upto(
    mode: Mode,
    root: Seq<u8>,
    fixtures: Seq<Seq<u8>>,
    revs: Seq<Seq<Seq<u8>>>,
    reasons: Seq<Option<Seq<u8>>>,
    n: int,
)
    requires
        0 <= n <= fixtures.len(),
        forall|i: int, j: int|
            0 <= i < j < fixtures.len() ==> rel_part(#[trigger] fixtures[i], root) != rel_part(
                #[trigger] fixtures[j],
                root,
            ),
        forall|i: int|
            0 <= i < fixtures.len() ==> !rel_part(#[trigger] fixtures[i], root).contains(35u8),
        mode is Ui ==> forall|i: int, a: int, b: int|
            0 <= i < fixtures.len() && 0 <= a < b < revs[i].len() ==> (#[trigger] revs[i][a])
                != (#[trigger] revs[i][b]),
    ensures
        ({
            let cases = cases_upto(mode, root, fixtures, revs, reasons, n);
            &&& forall|p: int, q: int|
                0 <= p < q < cases.len() ==> (#[trigger] cases[p]).display_name
                    != (#[trigger] cases[q]).display_name
            &&& forall|p: int|
                0 <= p < cases.len() ==> exists|i: int|
                    0 <= i < n && name_of_fixture(
                        mode,
                        root,
                        fixtures,
                        (#[trigger] cases[p]).display_name,
                        i,
                    )
        }),
    decreases n,
{
    if n > 0 {
        lemma_names_distinct_upto(mode, root, fixtures, revs, reasons, n - 1);
        let prefix = cases_upto(mode, root, fixtures, revs, reasons, n - 1);
        let fresh = fixture_cases_spec(mode, fixtures[n - 1], root, revs[n - 1], reasons[n - 1]);
        let cases = cases_upto(mode, root, fixtures, revs, reasons, n);
        let rel = rel_part(fixtures[n - 1], root);
        let ex = expanded(mode, revs[n - 1]);
        // Every fresh case is named from fixture n - 1, and no two fresh
        // cases share a name: their revisions differ.
        assert forall|a: int| 0 <= a < fresh.len() implies (#[trigger] fresh[a]).display_name
            == display_name_spec(mode, rel, ex[a]) && name_of_fixture(
            mode,
            root,
            fixtures,
            fresh[a].display_name,
            n - 1,
        ) by {}
        assert forall|a: int, b: int| 0 <= a < b < fresh.len() implies (#[trigger] fresh[a]).display_name
            != (#[trigger] fresh[b]).display_name by {
            if mode is Ui && revs[n - 1].len() > 0 {
                assert(ex[a] == Some(revs[n - 1][a]));
                assert(ex[b] == Some(revs[n - 1][b]));
                lemma_display_names_distinct(
                    mode,
                    rel,
                    ex[a],
                    mode,
                    rel,
                    ex[b],
                );
            }
        }
        // A fresh case cannot share a name with an earlier one: the earlier
        // name belongs to a fixture with a different relative path.
        assert forall|p: int, q: int| 0 <= p < q < cases.len() implies (#[trigger] cases[p]).display_name
            != (#[trigger] cases[q]).display_name by {
            if q >= prefix.len() {
                if p >= prefix.len() {
                    assert(cases[p] == fresh[p - prefix.len()]);
                    assert(cases[q] == fresh[q - prefix.len()]);
                } else {
                    assert(cases[p] == prefix[p]);
                    assert(cases[q] == fresh[q - prefix.len()]);
                    let i = choose|i: int|
                        0 <= i < n - 1 && name_of_fixture(
                            mode,
                            root,
                            fixtures,
                            prefix[p].display_name,
                            i,
                        );
                    let rv = choose|rv: Option<Seq<u8>>|
                        prefix[p].display_name == display_name_spec(
                            mode,
                            rel_part(fixtures[i], root),
                            rv,
                        );
                    lemma_display_names_distinct(
                        mode,
                        rel_part(fixtures[i], root),
                        rv,
                        mode,
                        rel,
                        ex[q - prefix.len()],
                    );
                }
            } else {
                assert(cases[p] == prefix[p]);
                assert(cases[q] == prefix[q]);
            }
        }
    }
}

/// No two cases of one mode's built case list share a display name,
/// whatever the check verdicts: fixtures have distinct relative paths free
/// of `#`, and each fixture's declared revisions are unique, so the name —
/// tag, relative path, revision suffix — identifies the case. (A relative
/// path holding `#` is the one excluded input: it could collide with a
/// revision suffix.)
pub proof fn lemma_suite_names_distinct(
    mode: Mode,
    root: Seq<u8>,
    fixtures: Seq<Seq<u8>>,
    revs: Seq<Seq<Seq<u8>>>,
    reasons: Seq<Option<Seq<u8>>>,
)
    requires
        forall|i: int, j: int|
            0 <= i < j < fixtures.len() ==> rel_part(#[trigger] fixtures[i], root) != rel_part(
                #[trigger] fixtures[j],
                root,
            ),
        forall|i: int|
            0 <= i < fixtures.len() ==> !rel_part(#[trigger] fixtures[i], root).contains(35u8),
        mode is Ui ==> forall|i: int, a: int, b: int|
            0 <= i < fixtures.len() && 0 <= a < b < revs[i].len() ==> (#[trigger] revs[i][a])
                != (#[trigger] revs[i][b]),
    ensures
        ({
            let cases = mode_cases_spec(mode, root, fixtures, revs, reasons);
            forall|p: int, q: int|
                0 <= p < q < cases.len() ==> (#[trigger] cases[p]).display_name
                    != (#[trigger] cases[q]).display_name
        }),
{
    lemma_names_distinct_upto(mode, root, fixtures, revs, reasons, fixtures.len() as int);
}

/// Well-formed discovery output for one mode: every fixture lies under the
/// project root with a non-empty relative path, relative paths are pairwise
/// distinct and free of the `#` separator, and — for the Ui mode, the one
/// that consults them — each fixture's declared revisions are pairwise
/// distinct. These are the invariants that make display names unique across
/// the suite; violating any of them is a fatal configuration error.
pub open spec fn mode_input_wf(
    mode: Mode,
    root: Seq<u8>,
    fixtures: Seq<Seq<u8>>,
    revs: Seq<Seq<Seq<u8>>>,
) -> bool {
    &&& all_buildable(fixtures, root)
    &&& forall|i: int|
        0 <= i < fixtures.len() ==> !rel_part(#[trigger] fixtures[i], root).contains(35u8)
    &&& forall|i: int, j: int|
        0 <= i < j < fixtures.len() ==> rel_part(#[trigger] fixtures[i], root) != rel_part(
            #[trigger] fixtures[j],
            root,
        )
    &&& mode is Ui ==> forall|i: int, a: int, b: int|
        0 <= i < fixtures.len() && 0 <= a < b < revs[i].len() ==> (#[trigger] revs[i][a])
            != (#[trigger] revs[i][b])
}

proof fn lemma_cases_upto_named(
    mode: Mode,
    root: Seq<u8>,
    fixtures: Seq<Seq<u8>>,
    revs: Seq<Seq<Seq<u8>>>,
    reasons: Seq<Option<Seq<u8>>>,
    n: int,
)
    requires
        0 <= n <= fixtures.len(),
    ensures
        ({
            let cases = cases_upto(mode, root, fixtures, revs, reasons, n);
            forall|p: int|
                0 <= p < cases.len() ==> named_for_mode(mode, (#[trigger] cases[p]).display_name)
        }),
    decreases n,
{
    if n > 0 {
        lemma_cases_upto_named(mode, root, fixtures, revs, reasons, n - 1);
        let prefix = cases_upto(mode, root, fixtures, revs, reasons, n - 1);
        let fresh = fixture_cases_spec(mode, fixtures[n - 1], root, revs[n - 1], reasons[n - 1]);
        let rel = rel_part(fixtures[n - 1], root);
        let ex = expanded(mode, revs[n - 1]);
        assert forall|a: int| 0 <= a < fresh.len() implies named_for_mode(
            mode,
            (#[trigger] fresh[a]).display_name,
        ) by {
            assert(fresh[a].display_name == display_name_spec(mode, rel, ex[a]));
        }
        let cases = cases_upto(mode, root, fixtures, revs, reasons, n);
        assert forall|p: int| 0 <= p < cases.len() implies named_for_mode(
            mode,
            (#[trigger] cases[p]).display_name,
        ) by {
            if p < prefix.len() {
                assert(cases[p] == prefix[p]);
            } else {
                assert(cases[p] == fresh[p - prefix.len()]);
            }
        }
    }
}

/// Every case one mode contributes is named under that mode's tag: the
/// ground for cross-mode uniqueness of the merged suite.
pub proof fn lemma_mode_case_names(
    mode: Mode,
    root: Seq<u8>,
    fixtures: Seq<Seq<u8>>,
    revs: Seq<Seq<Seq<u8>>>,
    reasons: Seq<Option<Seq<u8>>>,
)
    ensures
        ({
            let cases = mode_cases_spec(mode, root, fixtures, revs, reasons);
            forall|p: int|
                0 <= p < cases.len() ==> named_for_mode(mode, (#[trigger] cases[p]).display_name)
        }),
{
    lemma_cases_upto_named(mode, root, fixtures, revs, reasons, fixtures.len() as int);
}

/// Builds the full case list one mode contributes to the suite.
///
/// `fixtures` are the discovered fixture paths in discovery order;
/// `revisions[i]` are the revision tags fixture `i` declares (consulted only
/// by the Ui mode); `checks[i]` is the check function's verdict on fixture
/// `i`. The name-uniqueness invariants are enforced here: a fixture outside
/// the root or without a parent directory, a relative path holding `#`, two
/// fixtures with one relative path, or a Ui fixture declaring one revision
/// tag twice all fail the whole build, for the caller to treat as fatal. In
/// return, the display names of the built cases are pairwise distinct.
#[verifier::loop_isolation(false)]
pub fn build_mode_cases(
    config: &Config,
    mode: Mode,
    fixtures: &Vec<Vec<u8>>,
    revisions: &Vec<Vec<Vec<u8>>>,
    checks: &Vec<TestResult>,
) -> (r: Result<Vec<TestCase>, ()>)
    requires
        revisions@.len() == fixtures@.len(),
        checks@.len() == fixtures@.len(),
    ensures
        mode_input_wf(
            mode,
            config@.root,
            crate::discovery::views_of(fixtures@),
            rev_views_of(revisions@),
        ) ==> (r matches Ok(v) && case_views_of(v@) == mode_cases_spec(
            mode,
            config@.root,
            crate::discovery::views_of(fixtures@),
            rev_views_of(revisions@),
            reasons_of(checks@),
        )),
        !mode_input_wf(
            mode,
            config@.root,
            crate::discovery::views_of(fixtures@),
            rev_views_of(revisions@),
        ) ==> r is Err,
        r matches Ok(v) ==> forall|p: int, q: int|
            0 <= p < q < v@.len() ==> (#[trigger] case_views_of(v@)[p]).display_name
                != (#[trigger] case_views_of(v@)[q]).display_name,
{
    let ghost root = config@.root;
    let ghost fixture_views = crate::discovery::views_of(fixtures@);
    let ghost rev_views = rev_views_of(revisions@);
    let ghost reason_views = reasons_of(checks@);

    // Enforce the invariants first: every fixture under the root with a
    // `#`-free relative path...
    let mut rels: Vec<Vec<u8>> = Vec::new();
    let mut i: usize = 0;
    while i < fixtures.len()
        invariant
            i <= fixtures@.len(),
            root == config@.root,
            fixture_views == crate::discovery::views_of(fixtures@),
            rels@.len() == i,
            forall|k: int|
                0 <= k < i ==> case_buildable(#[trigger] fixture_views[k], root) && !rel_part(
                    fixture_views[k],
                    root,
                ).contains(35u8) && rels@[k]@ == rel_part(fixture_views[k], root),
        decreases fixtures@.len() - i,
    {
        let path = &fixtures[i];
        proof {
            assert(path@ == fixture_views[i as int]);
        }
        let rel = match crate::paths::relative_to(path, &config.root) {
            Some(rel) => rel,
            None => {
                proof {
                    assert(!case_buildable(fixture_views[i as int], root));
                    assert(!mode_input_wf(mode, root, fixture_views, rev_views)) by {
                        if all_buildable(fixture_views, root) {
                            assert(case_buildable(fixture_views[i as int], root));
                        }
                    }
                }
                return Err(());
            },
        };
        if rel.len() == 0 {
            proof {
                assert(!case_buildable(fixture_views[i as int], root));
                assert(!mode_input_wf(mode, root, fixture_views, rev_views)) by {
                    if all_buildable(fixture_views, root) {
                        assert(case_buildable(fixture_views[i as int], root));
                    }
                }
            }
            return Err(());
        }
        if crate::paths::contains_byte(&rel, 35) {
            proof {
                assert(rel_part(fixture_views[i as int], root).contains(35u8));
                assert(!mode_input_wf(mode, root, fixture_views, rev_views));
            }
            return Err(());
        }
        rels.push(rel);
        i = i + 1;
    }
    // ... no two fixtures sharing one relative path ...
    let mut a: usize = 0;
    while a < rels.len()
        invariant
            a <= rels@.len(),
            forall|k: int, l: int| 0 <= k < a && k < l < rels@.len() ==> rels@[k]@ != rels@[l]@,
        decreases rels@.len() - a,
    {
        let mut b: usize = a + 1;
        while b < rels.len()
            invariant
                a < b <= rels@.len(),
                forall|l: int| a < l < b ==> rels@[a as int]@ != rels@[l]@,
            decreases rels@.len() - b,
        {
            if crate::paths::eq_bytes(&rels[a], &rels[b]) {
                proof {
                    assert(rel_part(fixture_views[a as int], root) == rel_part(
                        fixture_views[b as int],
                        root,
                    ));
                    assert(!mode_input_wf(mode, root, fixture_views, rev_views));
                }
                return Err(());
            }
            b = b + 1;
        }
        a = a + 1;
    }
    // ... and, for the Ui mode, no fixture declaring one revision twice.
    let is_ui = match mode {
        Mode::Ui => true,
        _ => false,
    };
    if is_ui {
        let mut i2: usize = 0;
        while i2 < revisions.len()
            invariant
                i2 <= revisions@.len(),
                forall|k: int, x: int, y: int|
                    0 <= k < i2 && 0 <= x < y < rev_views[k].len() ==> (#[trigger] rev_views[k][x])
                        != (#[trigger] rev_views[k][y]),
            decreases revisions@.len() - i2,
        {
            let revs_i = &revisions[i2];
            proof {
                assert(crate::discovery::views_of(revs_i@) == rev_views[i2 as int]);
            }
            let mut x: usize = 0;
            while x < revs_i.len()
                invariant
                    x <= revs_i@.len(),
                    forall|k: int, l: int|
                        0 <= k < x && k < l < revs_i@.len() ==> revs_i@[k]@ != revs_i@[l]@,
                decreases revs_i@.len() - x,
            {
                let mut y: usize = x + 1;
                while y < revs_i.len()
                    invariant
                        x < y <= revs_i@.len(),
                        forall|l: int| x < l < y ==> revs_i@[x as int]@ != revs_i@[l]@,
                    decreases revs_i@.len() - y,
                {
                    if crate::paths::eq_bytes(&revs_i[x], &revs_i[y]) {
                        proof {
                            assert(rev_views[i2 as int][x as int] == rev_views[i2 as int][y as int]);
                            assert(!mode_input_wf(mode, root, fixture_views, rev_views));
                        }
                        return Err(());
                    }
                    y = y + 1;
                }
                x = x + 1;
            }
            proof {
                assert forall|x: int, y: int|
                    0 <= x < y < rev_views[i2 as int].len() implies (
                #[trigger] rev_views[i2 as int][x]) != (#[trigger] rev_views[i2 as int][y]) by {
                    assert(revs_i@[x]@ != revs_i@[y]@);
                }
            }
            i2 = i2 + 1;
        }
    }
    proof {
        assert(mode_input_wf(mode, root, fixture_views, rev_views)) by {
            assert forall|k: int, l: int|
                0 <= k < l < fixture_views.len() implies rel_part(#[trigger] fixture_views[k], root)
                != rel_part(#[trigger] fixture_views[l], root) by {
                assert(rels@[k]@ != rels@[l]@);
            }
        }
    }

    let mut out: Vec<TestCase> = Vec::new();
    let mut i: usize = 0;
    while i < fixtures.len()
        invariant
            i <= fixtures@.len(),
            revisions@.len() == fixtures@.len(),
            checks@.len() == fixtures@.len(),
            root == config@.root,
            fixture_views == crate::discovery::views_of(fixtures@),
            rev_views == rev_views_of(revisions@),
            reason_views == reasons_of(checks@),
            case_views_of(out@) == cases_upto(
                mode,
                root,
                fixture_views,
                rev_views,
                reason_views,
                i as int,
            ),
            forall|k: int| 0 <= k < i ==> case_buildable(#[trigger] fixture_views[k], root),
        decreases fixtures@.len() - i,
    {
        let path = &fixtures[i];
        let expansion = expand_revisions(mode, &revisions[i]);
        let check = &checks[i];
        let ghost fix_cases = fixture_cases_spec(
            mode,
            path@,
            root,
            rev_views[i as int],
            reason_views[i as int],
        );
        let ghost before = case_views_of(out@);
        let mut j: usize = 0;
        proof {
            assert(crate::discovery::views_of(revisions@[i as int]@) == rev_views[i as int]);
            assert(fix_cases.take(0) =~= Seq::<TestCaseView>::empty());
            assert(case_views_of(out@) =~= before + fix_cases.take(0));
            assert(path@ == fixture_views[i as int]);
            assert(skip_reason(*check) == reason_views[i as int]);
        }
        while j < expansion.len()
            invariant
                j <= expansion@.len(),
                root == config@.root,
                0 <= i < fixtures@.len(),
                fixture_views == crate::discovery::views_of(fixtures@),
                path@ == fixture_views[i as int],
                skip_reason(*check) == reason_views[i as int],
                opt_views_of(expansion@) == expanded(mode, rev_views[i as int]),
                fix_cases == fixture_cases_spec(
                    mode,
                    path@,
                    root,
                    rev_views[i as int],
                    reason_views[i as int],
                ),
                case_views_of(out@) == before + fix_cases.take(j as int),
                j > 0 ==> case_buildable(path@, root),
            decreases expansion@.len() - j,
        {
            let ghost out_before = case_views_of(out@);
            match build_case(config, mode, path, &expansion[j], check) {
                Ok(c) => {
                    proof {
                        if !case_buildable(path@, root) {
                            assert(false);
                        }
                        assert(opt_bytes(expansion@[j as int]) == opt_views_of(
                            expansion@,
                        )[j as int]);
                        assert(fix_cases[j as int] == case_spec(
                            mode,
                            path@,
                            root,
                            expanded(mode, rev_views[i as int])[j as int],
                            reason_views[i as int],
                        ));
                        assert(c@ == fix_cases[j as int]);
                    }
                    out.push(c);
                    proof {
                        assert(case_views_of(out@) =~= out_before.push(c@));
                        assert(fix_cases.take(j + 1 as int) =~= fix_cases.take(j as int).push(
                            fix_cases[j as int],
                        ));
                        assert(before + fix_cases.take(j + 1 as int) =~= (before + fix_cases.take(
                            j as int,
                        )).push(fix_cases[j as int]));
                    }
                },
                Err(()) => {
                    proof {
                        assert(!case_buildable(path@, root));
                        assert(!all_buildable(fixture_views, root)) by {
                            if all_buildable(fixture_views, root) {
                                assert(case_buildable(fixture_views[i as int], root));
                            }
                        }
                    }
                    return Err(());
                },
            }
            j = j + 1;
        }
        proof {
            assert(expanded(mode, rev_views[i as int]).len() >= 1);
            assert(expansion@.len() >= 1);
            assert(case_buildable(fixture_views[i as int], root));
            assert(fix_cases.take(expansion@.len() as int) =~= fix_cases) by {
                assert(fix_cases.len() == expansion@.len());
            }
        }
        i = i + 1;
        proof {
            assert(case_views_of(out@) == cases_upto(
                mode,
                root,
                fixture_views,
                rev_views,
                reason_views,
                i as int,
            ));
        }
    }
    proof {
        assert(case_views_of(out@) == mode_cases_spec(
            mode,
            root,
            fixture_views,
            rev_views,
            reason_views,
        ));
        lemma_suite_names_distinct(mode, root, fixture_views, rev_views, reason_views);
    }
    Ok(out)
}

} // verus!
