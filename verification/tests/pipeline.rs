//! End-to-end scenarios for the descriptor pipeline: configuration, revision
//! fan-out, naming, skip recording, and suite assembly.

use suite_builder::cases::{build_case, build_mode_cases, expand_revisions, TestResult};
use suite_builder::config::{bless_from_var, output_dir, Config};
use suite_builder::mode::{active_modes, parse_mode, Mode};
use suite_builder::suite::{assemble_suite, exit_code, sort_suite, SchedulerOutcome};

fn b(s: &str) -> Vec<u8> {
    s.as_bytes().to_vec()
}

fn demo_config() -> Config {
    Config::new(b("/bin/compiler"), b("/proj"), None)
}

#[test]
fn config_fields() {
    let c = demo_config();
    assert_eq!(c.cmd, b("/bin/compiler"));
    assert_eq!(c.root, b("/proj"));
    assert_eq!(c.build_base, b("/proj/target/tester"));
    assert!(!c.bless);
}

#[test]
fn bless_absent_is_false() {
    assert!(!bless_from_var(None));
}

#[test]
fn bless_zero_is_false() {
    assert!(!bless_from_var(Some(&b("0"))));
}

#[test]
fn bless_one_is_true() {
    assert!(bless_from_var(Some(&b("1"))));
}

#[test]
fn bless_true_is_true() {
    assert!(bless_from_var(Some(&b("true"))));
}

#[test]
fn bless_empty_is_true() {
    assert!(bless_from_var(Some(&b(""))));
}

#[test]
fn mode_tags_and_parse() {
    assert_eq!(Mode::Ui.tag(), b("ui"));
    assert_eq!(Mode::SolcSolidity.tag(), b("solc-solidity"));
    assert_eq!(Mode::SolcYul.tag(), b("solc-yul"));
    assert_eq!(parse_mode(&b("ui")), Some(Mode::Ui));
    assert_eq!(parse_mode(&b("solc-solidity")), Some(Mode::SolcSolidity));
    assert_eq!(parse_mode(&b("solc-yul")), Some(Mode::SolcYul));
    assert_eq!(parse_mode(&b("solcyul")), None);
}

#[test]
fn solc_props_per_mode() {
    assert!(!Mode::Ui.solc_props());
    assert!(Mode::SolcSolidity.solc_props());
    assert!(Mode::SolcYul.solc_props());
}

#[test]
fn mode_restriction_absent_runs_all() {
    let modes = active_modes(None).unwrap();
    assert_eq!(modes.len(), 3);
    assert!(matches!(modes[0], Mode::Ui));
    assert!(matches!(modes[1], Mode::SolcSolidity));
    assert!(matches!(modes[2], Mode::SolcYul));
}

#[test]
fn mode_restriction_known_tag() {
    let modes = active_modes(Some(&b("solc-yul"))).unwrap();
    assert_eq!(modes.len(), 1);
    assert!(matches!(modes[0], Mode::SolcYul));
}

#[test]
fn mode_restriction_unknown_tag_is_fatal() {
    // The caller aborts the process on this error, before any discovery.
    assert!(active_modes(Some(&b("bogus"))).is_err());
}

#[test]
fn expand_no_revisions_yields_one_unrevisioned() {
    let fanned = expand_revisions(Mode::Ui, &Vec::new());
    assert_eq!(fanned, vec![None]);
}

#[test]
fn expand_two_revisions_in_declared_order() {
    let revs = vec![b("legacy"), b("default")];
    let fanned = expand_revisions(Mode::Ui, &revs);
    assert_eq!(fanned, vec![Some(b("legacy")), Some(b("default"))]);
}

#[test]
fn expand_ignores_revisions_outside_ui() {
    let revs = vec![b("legacy"), b("default")];
    let fanned = expand_revisions(Mode::SolcSolidity, &revs);
    assert_eq!(fanned, vec![None]);
}

#[test]
fn unrevisioned_fixture_name_and_output_dir() {
    // One fixture a/b.sol without revisions: one case named "[ui] a/b.sol",
    // artifacts under <build_base>/a.
    let config = demo_config();
    let fixtures = vec![b("/proj/a/b.sol")];
    let revisions = vec![Vec::new()];
    let checks = vec![TestResult::Passed];
    let cases = build_mode_cases(&config, Mode::Ui, &fixtures, &revisions, &checks).unwrap();
    assert_eq!(cases.len(), 1);
    assert_eq!(cases[0].display_name, b("[ui] a/b.sol"));
    assert_eq!(cases[0].relative_dir, b("a"));
    assert_eq!(cases[0].revision, None);
    assert_eq!(cases[0].ignore_reason, None);
    assert_eq!(output_dir(&config, &cases[0].relative_dir), b("/proj/target/tester/a"));
}

#[test]
fn revisioned_fixture_names_share_output_dir() {
    // a/c.sol declaring ["legacy", "default"]: two cases with #-suffixed
    // names, one shared artifact directory.
    let config = demo_config();
    let fixtures = vec![b("/proj/a/c.sol")];
    let revisions = vec![vec![b("legacy"), b("default")]];
    let checks = vec![TestResult::Passed];
    let cases = build_mode_cases(&config, Mode::Ui, &fixtures, &revisions, &checks).unwrap();
    assert_eq!(cases.len(), 2);
    assert_eq!(cases[0].display_name, b("[ui] a/c.sol#legacy"));
    assert_eq!(cases[1].display_name, b("[ui] a/c.sol#default"));
    assert_eq!(cases[0].revision, Some(b("legacy")));
    assert_eq!(cases[1].revision, Some(b("default")));
    assert_ne!(cases[0].display_name, cases[1].display_name);
    assert_eq!(cases[0].relative_dir, b("a"));
    assert_eq!(cases[1].relative_dir, b("a"));
    assert_eq!(output_dir(&config, &cases[0].relative_dir), b("/proj/target/tester/a"));
    assert_eq!(output_dir(&config, &cases[1].relative_dir), b("/proj/target/tester/a"));
}

#[test]
fn skip_verdict_is_recorded_and_bars_running() {
    // A Skipped("reason X") verdict becomes the ignore reason; the scheduler
    // registers such a case as ignored and never invokes its run closure.
    let config = demo_config();
    let case = build_case(
        &config,
        Mode::Ui,
        &b("/proj/a/b.sol"),
        &None,
        &TestResult::Skipped(b("reason X")),
    )
    .unwrap();
    assert_eq!(case.ignore_reason, Some(b("reason X")));
}

#[test]
fn pass_verdict_leaves_no_ignore_reason() {
    let config = demo_config();
    let case =
        build_case(&config, Mode::Ui, &b("/proj/a/b.sol"), &None, &TestResult::Passed).unwrap();
    assert_eq!(case.ignore_reason, None);
}

#[test]
fn fixture_not_under_root_is_fatal() {
    // A fixture path outside the project root is a discovery invariant
    // violation, not a case to run.
    let config = demo_config();
    let r = build_case(&config, Mode::Ui, &b("other/x.sol"), &None, &TestResult::Passed);
    assert!(r.is_err());
}

#[test]
fn duplicate_relative_paths_are_fatal() {
    // Two fixtures with one relative path would collapse to one display
    // name; the builder refuses the suite.
    let config = demo_config();
    let fixtures = vec![b("/proj/a/b.sol"), b("/proj/a/b.sol")];
    let revisions = vec![Vec::new(), Vec::new()];
    let checks = vec![TestResult::Passed, TestResult::Passed];
    assert!(build_mode_cases(&config, Mode::Ui, &fixtures, &revisions, &checks).is_err());
}

#[test]
fn duplicate_revision_tags_are_fatal() {
    // Revision tags within one fixture must be unique.
    let config = demo_config();
    let fixtures = vec![b("/proj/a/b.sol")];
    let revisions = vec![vec![b("legacy"), b("legacy")]];
    let checks = vec![TestResult::Passed];
    assert!(build_mode_cases(&config, Mode::Ui, &fixtures, &revisions, &checks).is_err());
}

#[test]
fn hash_in_relative_path_is_fatal() {
    // A relative path holding `#` could collide with a revision suffix; the
    // builder enforces the name invariant instead of risking it.
    let config = demo_config();
    let fixtures = vec![b("/proj/a#1/b.sol")];
    let revisions = vec![Vec::new()];
    let checks = vec![TestResult::Passed];
    assert!(build_mode_cases(&config, Mode::Ui, &fixtures, &revisions, &checks).is_err());
}

#[test]
fn fixture_at_root_itself_is_fatal() {
    // The root has an empty relative path and so no parent directory: a
    // discovery invariant violation.
    let config = demo_config();
    let r = build_case(&config, Mode::Ui, &b("/proj"), &None, &TestResult::Passed);
    assert!(r.is_err());
}

#[test]
fn suite_sorts_by_display_name_bytewise() {
    let config = demo_config();
    let fixtures = vec![b("/proj/b/z.sol"), b("/proj/a/y.sol"), b("/proj/a/x.sol")];
    let revisions = vec![Vec::new(), Vec::new(), Vec::new()];
    let checks = vec![TestResult::Passed, TestResult::Passed, TestResult::Passed];
    let cases = build_mode_cases(&config, Mode::Ui, &fixtures, &revisions, &checks).unwrap();
    let sorted = sort_suite(cases);
    assert_eq!(sorted.len(), 3);
    assert_eq!(sorted[0].display_name, b("[ui] a/x.sol"));
    assert_eq!(sorted[1].display_name, b("[ui] a/y.sol"));
    assert_eq!(sorted[2].display_name, b("[ui] b/z.sol"));
}

#[test]
fn assemble_merges_modes_into_one_order() {
    let config = demo_config();
    let ui = build_mode_cases(
        &config,
        Mode::Ui,
        &vec![b("/proj/t/b.sol")],
        &vec![Vec::new()],
        &vec![TestResult::Passed],
    )
    .unwrap();
    let yul = build_mode_cases(
        &config,
        Mode::SolcYul,
        &vec![b("/proj/t/a.yul")],
        &vec![Vec::new()],
        &vec![TestResult::Passed],
    )
    .unwrap();
    let suite = assemble_suite(vec![ui, yul]);
    assert_eq!(suite.len(), 2);
    // '[' then 's' sorts after '[' then 'u' at index 1: "[solc-yul] ..."
    // comes first byte-wise.
    assert_eq!(suite[0].display_name, b("[solc-yul] t/a.yul"));
    assert_eq!(suite[1].display_name, b("[ui] t/b.sol"));
}

#[test]
fn suite_names_pairwise_distinct() {
    let config = demo_config();
    let fixtures = vec![b("/proj/a/b.sol"), b("/proj/a/c.sol")];
    let revisions = vec![Vec::new(), vec![b("legacy"), b("default")]];
    let checks = vec![TestResult::Passed, TestResult::Passed];
    let cases = build_mode_cases(&config, Mode::Ui, &fixtures, &revisions, &checks).unwrap();
    assert_eq!(cases.len(), 3);
    for p in 0..cases.len() {
        for q in (p + 1)..cases.len() {
            assert_ne!(cases[p].display_name, cases[q].display_name);
        }
    }
}

#[test]
fn exit_codes() {
    assert_eq!(exit_code(SchedulerOutcome::AllPassed), 0);
    assert_eq!(exit_code(SchedulerOutcome::SomeFailed), 1);
    assert_eq!(exit_code(SchedulerOutcome::IoError), 101);
}

#[test]
fn output_dir_of_root_fixture_is_the_base() {
    let config = demo_config();
    assert_eq!(output_dir(&config, &Vec::new()), b("/proj/target/tester"));
}
