//! Process-wide immutable configuration.
//!
//! A `Config` is computed once at startup from plain values (the caller reads
//! the environment and resolves the project root) and is then shared
//! read-only by every discovery, build and execution step.

use vstd::prelude::*;
use crate::paths::{join_spec, slash};

verus! {

/// Immutable settings for one whole run.
pub struct Config {
    /// Path of the compiler binary under test.
    pub cmd: Vec<u8>,
    /// Path of the project root, under which fixture trees live.
    pub root: Vec<u8>,
    /// Base directory of the output-artifact tree.
    pub build_base: Vec<u8>,
    /// Whether expected outputs are regenerated instead of compared.
    pub bless: bool,
}

/// The mathematical value of a `Config`.
pub struct ConfigView {
    pub cmd: Seq<u8>,
    pub root: Seq<u8>,
    pub build_base: Seq<u8>,
    pub bless: bool,
}

impl View for Config {
    type V = ConfigView;

    open spec fn view(&self) -> ConfigView {
        ConfigView {
            cmd: self.cmd@,
            root: self.root@,
            build_base: self.build_base@,
            bless: self.bless,
        }
    }
}

/// The bytes of `"target/tester"`, the output base relative to the root.
pub open spec fn build_base_subdir() -> Seq<u8> {
    seq![116u8, 97u8, 114u8, 103u8, 101u8, 116u8, 47u8, 116u8, 101u8, 115u8, 116u8, 101u8, 114u8]
}

/// The bless flag read from its environment variable: set whenever the
/// variable is present with any value other than the literal `"0"`.
pub open spec fn bless_spec(var: Option<Seq<u8>>) -> bool {
    match var {
        Some(v) => v != seq![48u8],
        None => false,
    }
}

/// Decides the bless flag from the raw value of its environment variable.
pub fn bless_from_var(var: Option<&Vec<u8>>) -> (r: bool)
    ensures
        r == bless_spec(match var {
            Some(v) => Some(v@),
            None => None,
        }),
{
    match var {
        Some(v) => {
            let mut zero: Vec<u8> = Vec::new();
            zero.push(48);
            proof {
                assert(zero@ =~= seq![48u8]);
            }
            !crate::paths::eq_bytes(v, &zero)
        },
        None => false,
    }
}

impl Config {
    /// Assembles the configuration from the compiler path, the resolved
    /// project root, and the raw bless variable. The output base directory is
    /// a fixed subdirectory of the root; creating it (and aborting the
    /// process when that fails) is the caller's side of the contract.
    pub fn new(cmd: Vec<u8>, root: Vec<u8>, bless_var: Option<&Vec<u8>>) -> (r: Config)
        ensures
            r@.cmd == cmd@,
            r@.root == root@,
            r@.build_base == join_spec(root@, build_base_subdir()),
            r@.bless == bless_spec(match bless_var {
                Some(v) => Some(v@),
                None => None,
            }),
    {
        let bless = bless_from_var(bless_var);
        let mut sub: Vec<u8> = Vec::new();
        let a: [u8; 13] = [116, 97, 114, 103, 101, 116, 47, 116, 101, 115, 116, 101, 114];
        sub.extend_from_slice(&a);
        proof {
            assert(sub@ =~= build_base_subdir());
        }
        let build_base = crate::paths::join(&root, &sub);
        Config { cmd, root, build_base, bless }
    }
}

/// The artifact directory for a fixture: the fixture's relative directory
/// mirrored under the output base, or the base itself for fixtures that sit
/// directly in the root.
pub open spec fn output_dir_spec(c: ConfigView, relative_dir: Seq<u8>) -> Seq<u8> {
    if relative_dir.len() == 0 {
        c.build_base
    } else {
        join_spec(c.build_base, relative_dir)
    }
}

/// Computes the artifact directory for a fixture's relative directory.
/// Creation of the directory is the caller's: it must be created, parents
/// included and idempotently, before the case runs.
pub fn output_dir(c: &Config, relative_dir: &Vec<u8>) -> (r: Vec<u8>)
    ensures
        r@ == output_dir_spec(c@, relative_dir@),
{
    if relative_dir.len() == 0 {
        let mut r: Vec<u8> = Vec::new();
        r.extend_from_slice(c.build_base.as_slice());
        proof {
            assert(r@ =~= c@.build_base);
        }
        r
    } else {
        crate::paths::join(&c.build_base, relative_dir)
    }
}

} // verus!
