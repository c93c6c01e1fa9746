//! Suite assembly: the byte-wise order on display names, and the sort that
//! turns the concatenated per-mode case lists into one deterministic,
//! reproducible run order.

use vstd::prelude::*;
use vstd::multiset::Multiset;
use crate::cases::{case_views_of, TestCase, TestCaseView};

verus! {

broadcast use {vstd::seq_lib::group_to_multiset_ensures, vstd::multiset::group_multiset_axioms};

/// Byte-wise (lexicographic) order on byte strings: `a` comes no later
/// than `b`.
pub open spec fn lex_leq(a: Seq<u8>, b: Seq<u8>) -> bool
    decreases a.len(),
{
    if a.len() == 0 {
        true
    } else if b.len() == 0 {
        false
    } else if a[0] < b[0] {
        true
    } else if a[0] > b[0] {
        false
    } else {
        lex_leq(a.skip(1), b.skip(1))
    }
}

/// The byte-wise order is total: of two byte strings, one comes no later
/// than the other.
pub proof fn lemma_lex_total(a: Seq<u8>, b: Seq<u8>)
    ensures
        lex_leq(a, b) || lex_leq(b, a),
    decreases a.len(),
{
    if a.len() > 0 && b.len() > 0 && a[0] == b[0] {
        lemma_lex_total(a.skip(1), b.skip(1));
    }
}

/// The byte-wise order is transitive.
pub proof fn lemma_lex_trans(a: Seq<u8>, b: Seq<u8>, c: Seq<u8>)
    requires
        lex_leq(a, b),
        lex_leq(b, c),
    ensures
        lex_leq(a, c),
    decreases a.len(),
{
    if a.len() > 0 && b.len() > 0 && c.len() > 0 {
        if a[0] == b[0] && b[0] == c[0] {
            lemma_lex_trans(a.skip(1), b.skip(1), c.skip(1));
        }
    }
}

/// Byte-wise comparison of two byte strings.
pub fn bytes_leq(a: &Vec<u8>, b: &Vec<u8>) -> (r: bool)
    ensures
        r == lex_leq(a@, b@),
{
    let mut i: usize = 0;
    proof {
        assert(a@.skip(0) =~= a@);
        assert(b@.skip(0) =~= b@);
    }
    while i < a.len() && i < b.len()
        invariant
            i <= a@.len(),
            i <= b@.len(),
            lex_leq(a@, b@) == lex_leq(a@.skip(i as int), b@.skip(i as int)),
        decreases a@.len() - i,
    {
        let ghost sa = a@.skip(i as int);
        let ghost sb = b@.skip(i as int);
        proof {
            assert(sa[0] == a@[i as int]);
            assert(sb[0] == b@[i as int]);
        }
        if a[i] < b[i] {
            return true;
        }
        if a[i] > b[i] {
            return false;
        }
        proof {
            assert(sa.skip(1) =~= a@.skip(i + 1));
            assert(sb.skip(1) =~= b@.skip(i + 1));
        }
        i = i + 1;
    }
    proof {
        if i == a@.len() {
            assert(a@.skip(i as int) =~= Seq::<u8>::empty());
        } else {
            assert(b@.skip(i as int) =~= Seq::<u8>::empty());
            assert(a@.skip(i as int).len() > 0);
        }
    }
    i == a.len()
}

/// A suite in scheduler order: display names byte-wise ascending.
pub open spec fn suite_sorted(s: Seq<TestCaseView>) -> bool {
    forall|i: int, j: int|
        0 <= i < j < s.len() ==> lex_leq(#[trigger] s[i].display_name, #[trigger] s[j].display_name)
}

/// Inserting a value anywhere in a sequence adds exactly it to the
/// sequence's multiset.
proof fn lemma_insert_to_multiset(s: Seq<TestCaseView>, k: int, x: TestCaseView)
    requires
        0 <= k <= s.len(),
    ensures
        s.insert(k, x).to_multiset() =~= s.to_multiset().insert(x),
{
    let t = s.insert(k, x);
    assert(t.remove(k) =~= s);
    assert(t.remove(k).to_multiset() =~= t.to_multiset().remove(t[k]));
    assert(t[k] == x);
    assert(t.contains(x));
    assert(t.to_multiset().count(x) > 0);
    assert forall|y: TestCaseView| #[trigger] t.to_multiset().count(y) == s.to_multiset().insert(
        x,
    ).count(y) by {
        if y == x {
            assert(s.to_multiset().count(x) == t.to_multiset().remove(x).count(x));
        } else {
            assert(s.to_multiset().count(y) == t.to_multiset().remove(x).count(y));
        }
    }
}

/// Sorts a suite by display name, byte-wise ascending: the result is the
/// same collection of cases — the same multiset — in scheduler order.
pub fn sort_suite(cases: Vec<TestCase>) -> (r: Vec<TestCase>)
    ensures
        suite_sorted(case_views_of(r@)),
        case_views_of(r@).to_multiset() == case_views_of(cases@).to_multiset(),
        r@.len() == cases@.len(),
{
    let ghost all = case_views_of(cases@);
    let mut input = cases;
    let mut out: Vec<TestCase> = Vec::new();
    proof {
        assert(case_views_of(out@) =~= Seq::<TestCaseView>::empty());
        assert(case_views_of(out@).to_multiset().add(case_views_of(input@).to_multiset()) =~= all.to_multiset());
    }
    while input.len() > 0
        invariant
            all == case_views_of(cases@),
            suite_sorted(case_views_of(out@)),
            case_views_of(out@).to_multiset().add(case_views_of(input@).to_multiset())
                =~= all.to_multiset(),
            out@.len() + input@.len() == cases@.len(),
        decreases input@.len(),
    {
        let ghost in_before = case_views_of(input@);
        let x = match input.pop() {
            Some(x) => x,
            None => {
                proof {
                    assert(false);
                }
                unreached()
            },
        };
        proof {
            assert(in_before =~= case_views_of(input@).push(x@));
            assert(in_before.to_multiset() =~= case_views_of(input@).to_multiset().insert(x@));
        }
        let mut pos: usize = 0;
        while pos < out.len() && bytes_leq(&out[pos].display_name, &x.display_name)
            invariant
                pos <= out@.len(),
                forall|k: int|
                    0 <= k < pos ==> lex_leq(
                        #[trigger] case_views_of(out@)[k].display_name,
                        x@.display_name,
                    ),
            decreases out@.len() - pos,
        {
            proof {
                assert(case_views_of(out@)[pos as int].display_name == out@[pos as int]@.display_name);
            }
            pos = pos + 1;
        }
        let ghost out_before = case_views_of(out@);
        proof {
            if pos < out@.len() {
                assert(!lex_leq(out@[pos as int]@.display_name, x@.display_name));
                lemma_lex_total(out@[pos as int]@.display_name, x@.display_name);
                assert(lex_leq(x@.display_name, out_before[pos as int].display_name));
            }
        }
        out.insert(pos, x);
        proof {
            assert(case_views_of(out@) =~= out_before.insert(pos as int, x@));
            lemma_insert_to_multiset(out_before, pos as int, x@);
            let now = case_views_of(out@);
            assert forall|i: int, j: int| 0 <= i < j < now.len() implies lex_leq(
                #[trigger] now[i].display_name,
                #[trigger] now[j].display_name,
            ) by {
                if i < pos && j == pos {
                } else if i == pos && j > pos {
                    if j > pos + 1 {
                        assert(lex_leq(
                            out_before[pos as int].display_name,
                            out_before[j - 1].display_name,
                        ));
                        lemma_lex_trans(
                            x@.display_name,
                            out_before[pos as int].display_name,
                            out_before[j - 1].display_name,
                        );
                    }
                } else if i < pos && j > pos {
                } else if i != pos && j != pos {
                }
            }
        }
    }
    proof {
        assert(case_views_of(input@).to_multiset() =~= Seq::<TestCaseView>::empty().to_multiset());
        assert(case_views_of(out@).to_multiset() =~= all.to_multiset());
    }
    out
}

/// Distinct display names survive reordering: a suite that holds the same
/// cases as one whose names are pairwise distinct — in particular the sorted
/// suite, which holds exactly the cases handed to the sort — has pairwise
/// distinct names too.
pub proof fn lemma_permutation_keeps_distinct_names(a: Seq<TestCaseView>, b: Seq<TestCaseView>)
    requires
        a.to_multiset() == b.to_multiset(),
        forall|p: int, q: int|
            0 <= p < q < a.len() ==> (#[trigger] a[p]).display_name != (#[trigger] a[q]).display_name,
    ensures
        forall|p: int, q: int|
            0 <= p < q < b.len() ==> (#[trigger] b[p]).display_name != (#[trigger] b[q]).display_name,
{
    assert(a.no_duplicates());
    a.lemma_multiset_has_no_duplicates();
    b.lemma_multiset_has_no_duplicates_conv();
    assert forall|p: int, q: int|
        0 <= p < q < b.len() implies (#[trigger] b[p]).display_name
        != (#[trigger] b[q]).display_name by {
        if b[p].display_name == b[q].display_name {
            assert(b[p] != b[q]);
            assert(b.contains(b[p]) && b.contains(b[q]));
            assert(b.to_multiset().count(b[p]) > 0);
            assert(b.to_multiset().count(b[q]) > 0);
            assert(a.to_multiset().contains(b[p]) && a.to_multiset().contains(b[q]));
            assert(a.contains(b[p]) && a.contains(b[q]));
            let i1 = choose|i: int| 0 <= i < a.len() && a[i] == b[p];
            let i2 = choose|i: int| 0 <= i < a.len() && a[i] == b[q];
            assert(a[i1].display_name == a[i2].display_name && i1 != i2);
            assert(false);
        }
    }
}

/// The multiset of cases a list of per-mode case lists holds, all lists
/// together.
pub open spec fn parts_multiset(parts: Seq<Seq<TestCaseView>>) -> Multiset<TestCaseView>
    decreases parts.len(),
{
    if parts.len() == 0 {
        Multiset::empty()
    } else {
        parts_multiset(parts.drop_last()).add(parts.last().to_multiset())
    }
}

/// Concatenates the case lists of all active modes and sorts the result by
/// display name: one suite, holding exactly the cases of all parts, in the
/// deterministic scheduler order.
pub fn assemble_suite(parts: Vec<Vec<TestCase>>) -> (r: Vec<TestCase>)
    ensures
        suite_sorted(case_views_of(r@)),
        case_views_of(r@).to_multiset() == parts_multiset(
            parts@.map_values(|p: Vec<TestCase>| case_views_of(p@)),
        ),
{
    let ghost part_views = parts@.map_values(|p: Vec<TestCase>| case_views_of(p@));
    let mut all: Vec<TestCase> = Vec::new();
    let mut i: usize = 0;
    proof {
        assert(part_views.take(0) =~= Seq::<Seq<TestCaseView>>::empty());
        assert(case_views_of(all@).to_multiset() =~= parts_multiset(part_views.take(0))) by {
            assert(case_views_of(all@) =~= Seq::<TestCaseView>::empty());
        }
    }
    while i < parts.len()
        invariant
            i <= parts@.len(),
            part_views == parts@.map_values(|p: Vec<TestCase>| case_views_of(p@)),
            case_views_of(all@).to_multiset() == parts_multiset(part_views.take(i as int)),
        decreases parts@.len() - i,
    {
        let ghost all_before = case_views_of(all@);
        let part = &parts[i];
        let mut j: usize = 0;
        while j < part.len()
            invariant
                j <= part@.len(),
                0 <= i < parts@.len(),
                part == &parts@[i as int],
                part_views == parts@.map_values(|p: Vec<TestCase>| case_views_of(p@)),
                case_views_of(all@) =~= all_before + case_views_of(part@).take(j as int),
            decreases part@.len() - j,
        {
            let ghost before = case_views_of(all@);
            let c = crate::cases::clone_case(&part[j]);
            proof {
                assert(c@ == case_views_of(part@)[j as int]);
            }
            all.push(c);
            proof {
                assert(case_views_of(all@) =~= before.push(c@));
                assert(case_views_of(part@).take(j + 1 as int) =~= case_views_of(part@).take(
                    j as int,
                ).push(case_views_of(part@)[j as int]));
            }
            j = j + 1;
        }
        i = i + 1;
        proof {
            assert(case_views_of(part@).take(part@.len() as int) =~= case_views_of(part@));
            assert(case_views_of(part@) == part_views[i - 1]);
            assert(part_views.take(i as int).drop_last() =~= part_views.take(i - 1));
            assert(part_views.take(i as int).last() == part_views[i - 1]);
            vstd::seq_lib::lemma_multiset_commutative(all_before, part_views[i - 1]);
            assert(case_views_of(all@).to_multiset() =~= parts_multiset(part_views.take(i as int)));
        }
    }
    proof {
        assert(part_views.take(i as int) =~= part_views);
    }
    sort_suite(all)
}

/// All the cases a list of per-mode case lists holds, in list order.
pub open spec fn concat_all(parts: Seq<Seq<TestCaseView>>) -> Seq<TestCaseView>
    decreases parts.len(),
{
    if parts.len() == 0 {
        Seq::empty()
    } else {
        concat_all(parts.drop_last()) + parts.last()
    }
}

/// The concatenation of the parts holds exactly the cases of all parts.
proof fn lemma_parts_multiset_is_concat(parts: Seq<Seq<TestCaseView>>)
    ensures
        concat_all(parts).to_multiset() == parts_multiset(parts),
    decreases parts.len(),
{
    if parts.len() > 0 {
        lemma_parts_multiset_is_concat(parts.drop_last());
        vstd::seq_lib::lemma_multiset_commutative(concat_all(parts.drop_last()), parts.last());
    }
}

proof fn lemma_merged_names_distinct_upto(
    modes: Seq<crate::mode::Mode>,
    root: Seq<u8>,
    fixtures: Seq<Seq<Seq<u8>>>,
    revs: Seq<Seq<Seq<Seq<u8>>>>,
    reasons: Seq<Seq<Option<Seq<u8>>>>,
    parts: Seq<Seq<TestCaseView>>,
    n: int,
)
    requires
        0 <= n <= modes.len(),
        parts.len() == modes.len(),
        forall|k: int, l: int| 0 <= k < l < modes.len() ==> modes[k] != modes[l],
        forall|k: int|
            0 <= k < modes.len() ==> crate::cases::mode_input_wf(
                #[trigger] modes[k],
                root,
                fixtures[k],
                revs[k],
            ),
        forall|k: int|
            0 <= k < modes.len() ==> #[trigger] parts[k] == crate::cases::mode_cases_spec(
                modes[k],
                root,
                fixtures[k],
                revs[k],
                reasons[k],
            ),
    ensures
        ({
            let merged = concat_all(parts.take(n));
            &&& forall|p: int, q: int|
                0 <= p < q < merged.len() ==> (#[trigger] merged[p]).display_name
                    != (#[trigger] merged[q]).display_name
            &&& forall|p: int|
                0 <= p < merged.len() ==> exists|k: int|
                    0 <= k < n && crate::cases::named_for_mode(
                        modes[k],
                        (#[trigger] merged[p]).display_name,
                    )
        }),
    decreases n,
{
    if n > 0 {
        lemma_merged_names_distinct_upto(modes, root, fixtures, revs, reasons, parts, n - 1);
        let prev = concat_all(parts.take(n - 1));
        let fresh = parts[n - 1];
        let merged = concat_all(parts.take(n));
        assert(parts.take(n).drop_last() =~= parts.take(n - 1));
        assert(parts.take(n).last() == parts[n - 1]);
        assert(merged == prev + fresh);
        crate::cases::lemma_suite_names_distinct(
            modes[n - 1],
            root,
            fixtures[n - 1],
            revs[n - 1],
            reasons[n - 1],
        );
        crate::cases::lemma_mode_case_names(
            modes[n - 1],
            root,
            fixtures[n - 1],
            revs[n - 1],
            reasons[n - 1],
        );
        assert forall|p: int, q: int| 0 <= p < q < merged.len() implies (
        #[trigger] merged[p]).display_name != (#[trigger] merged[q]).display_name by {
            if q >= prev.len() {
                if p >= prev.len() {
                    assert(merged[p] == fresh[p - prev.len()]);
                    assert(merged[q] == fresh[q - prev.len()]);
                } else {
                    assert(merged[p] == prev[p]);
                    assert(merged[q] == fresh[q - prev.len()]);
                    let k = choose|k: int|
                        0 <= k < n - 1 && crate::cases::named_for_mode(
                            modes[k],
                            prev[p].display_name,
                        );
                    assert(crate::cases::named_for_mode(
                        modes[n - 1],
                        fresh[q - prev.len()].display_name,
                    ));
                    crate::cases::lemma_distinct_mode_names(
                        modes[k],
                        modes[n - 1],
                        prev[p].display_name,
                        fresh[q - prev.len()].display_name,
                    );
                }
            } else {
                assert(merged[p] == prev[p]);
                assert(merged[q] == prev[q]);
            }
        }
        assert forall|p: int| 0 <= p < merged.len() implies exists|k: int|
            0 <= k < n && crate::cases::named_for_mode(
                modes[k],
                (#[trigger] merged[p]).display_name,
            ) by {
            if p < prev.len() {
                assert(merged[p] == prev[p]);
                let k = choose|k: int|
                    0 <= k < n - 1 && crate::cases::named_for_mode(modes[k], prev[p].display_name);
                assert(0 <= k < n && crate::cases::named_for_mode(
                    modes[k],
                    merged[p].display_name,
                ));
            } else {
                assert(merged[p] == fresh[p - prev.len()]);
                assert(0 <= n - 1 < n && crate::cases::named_for_mode(
                    modes[n - 1],
                    merged[p].display_name,
                ));
            }
        }
    } else {
        assert(parts.take(0) =~= Seq::<Seq<TestCaseView>>::empty());
    }
}

/// One suite merged from the per-mode case lists of pairwise distinct modes,
/// each list built from well-formed discovery output, has pairwise distinct
/// display names: within one mode by `lemma_suite_names_distinct`, across
/// modes because the tag differs.
pub proof fn lemma_merged_names_distinct(
    modes: Seq<crate::mode::Mode>,
    root: Seq<u8>,
    fixtures: Seq<Seq<Seq<u8>>>,
    revs: Seq<Seq<Seq<Seq<u8>>>>,
    reasons: Seq<Seq<Option<Seq<u8>>>>,
    parts: Seq<Seq<TestCaseView>>,
)
    requires
        parts.len() == modes.len(),
        forall|k: int, l: int| 0 <= k < l < modes.len() ==> modes[k] != modes[l],
        forall|k: int|
            0 <= k < modes.len() ==> crate::cases::mode_input_wf(
                #[trigger] modes[k],
                root,
                fixtures[k],
                revs[k],
            ),
        forall|k: int|
            0 <= k < modes.len() ==> #[trigger] parts[k] == crate::cases::mode_cases_spec(
                modes[k],
                root,
                fixtures[k],
                revs[k],
                reasons[k],
            ),
    ensures
        forall|p: int, q: int|
            0 <= p < q < concat_all(parts).len() ==> (#[trigger] concat_all(parts)[p]).display_name
                != (#[trigger] concat_all(parts)[q]).display_name,
{
    lemma_merged_names_distinct_upto(
        modes,
        root,
        fixtures,
        revs,
        reasons,
        parts,
        modes.len() as int,
    );
    assert(parts.take(modes.len() as int) =~= parts);
}

/// The suite `assemble_suite` hands to the scheduler keeps the merged parts'
/// pairwise-distinct display names: the sorted suite holds exactly the cases
/// of the concatenation, and distinct names survive reordering.
pub proof fn lemma_assembled_names_distinct(parts: Seq<Seq<TestCaseView>>, sorted: Seq<TestCaseView>)
    requires
        sorted.to_multiset() == parts_multiset(parts),
        forall|p: int, q: int|
            0 <= p < q < concat_all(parts).len() ==> (#[trigger] concat_all(parts)[p]).display_name
                != (#[trigger] concat_all(parts)[q]).display_name,
    ensures
        forall|p: int, q: int|
            0 <= p < q < sorted.len() ==> (#[trigger] sorted[p]).display_name
                != (#[trigger] sorted[q]).display_name,
{
    lemma_parts_multiset_is_concat(parts);
    lemma_permutation_keeps_distinct_names(concat_all(parts), sorted);
}

/// What the scheduler reported of a whole run.
pub enum SchedulerOutcome {
    /// Every scheduled case passed or was ignored.
    AllPassed,
    /// At least one case failed.
    SomeFailed,
    /// The scheduler itself failed to report.
    IoError,
}

/// The process exit code for a scheduler outcome.
pub open spec fn exit_code_spec(outcome: SchedulerOutcome) -> i32 {
    match outcome {
        SchedulerOutcome::AllPassed => 0,
        SchedulerOutcome::SomeFailed => 1,
        SchedulerOutcome::IoError => 101,
    }
}

/// Maps the scheduler's verdict to the process exit code: success is 0, a
/// failing case is 1, and a reporting failure is the fatal 101.
pub fn exit_code(outcome: SchedulerOutcome) -> (r: i32)
    ensures
        r == exit_code_spec(outcome),
{
    match outcome {
        SchedulerOutcome::AllPassed => 0,
        SchedulerOutcome::SomeFailed => 1,
        SchedulerOutcome::IoError => 101,
    }
}

} // verus!
