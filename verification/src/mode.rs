//! Test modes and their static configuration: tag, discovery root, and
//! extension filter.
//!
//! Paths and names are handled throughout the library as raw byte strings
//! (`Vec<u8>`), the encoding in which they are compared and sorted.

use vstd::prelude::*;

verus! {

/// The closed set of test modes. Each mode has its own fixture tree,
/// extension filter, and comparison strategy (the latter is supplied by the
/// caller as a check/run function pair).
#[derive(Clone, Copy, PartialEq, Eq, Structural, Debug)]
pub enum Mode {
    /// UI snapshot tests from this project's own fixture tree.
    Ui,
    /// Conformance tests borrowed from the upstream compiler's corpus.
    SolcSolidity,
    /// The Yul subset of the upstream conformance corpus.
    SolcYul,
}

/// The bytes of `"ui"`.
pub open spec fn tag_ui() -> Seq<u8> {
    seq![117u8, 105u8]
}

/// The bytes of `"solc-solidity"`.
pub open spec fn tag_solc_solidity() -> Seq<u8> {
    seq![115u8, 111u8, 108u8, 99u8, 45u8, 115u8, 111u8, 108u8, 105u8, 100u8, 105u8, 116u8, 121u8]
}

/// The bytes of `"solc-yul"`.
pub open spec fn tag_solc_yul() -> Seq<u8> {
    seq![115u8, 111u8, 108u8, 99u8, 45u8, 121u8, 117u8, 108u8]
}

impl Mode {
    /// Whether this mode's fixtures use the upstream (solc) header dialect.
    /// Those modes never declare revisions and manage their own output
    /// directories.
    pub fn solc_props(self) -> (r: bool)
        ensures
            r == self.is_solc(),
    {
        match self {
            Mode::Ui => false,
            Mode::SolcSolidity => true,
            Mode::SolcYul => true,
        }
    }

    /// Spec view of `solc_props`.
    pub open spec fn is_solc(self) -> bool {
        self is SolcSolidity || self is SolcYul
    }

    /// The short tag that prefixes every display name of this mode, and that
    /// the mode-restriction variable uses to name the mode.
    pub open spec fn tag_spec(self) -> Seq<u8> {
        match self {
            Mode::Ui => tag_ui(),
            Mode::SolcSolidity => tag_solc_solidity(),
            Mode::SolcYul => tag_solc_yul(),
        }
    }

    /// The tag as bytes.
    pub fn tag(self) -> (r: Vec<u8>)
        ensures
            r@ == self.tag_spec(),
    {
        let mut r: Vec<u8> = Vec::new();
        match self {
            Mode::Ui => {
                let a: [u8; 2] = [117, 105];
                r.extend_from_slice(&a);
            },
            Mode::SolcSolidity => {
                let a: [u8; 13] = [115, 111, 108, 99, 45, 115, 111, 108, 105, 100, 105, 116, 121];
                r.extend_from_slice(&a);
            },
            Mode::SolcYul => {
                let a: [u8; 8] = [115, 111, 108, 99, 45, 121, 117, 108];
                r.extend_from_slice(&a);
            },
        }
        proof {
            assert(r@ =~= self.tag_spec());
        }
        r
    }

    /// The directory under the project root in which this mode's fixtures
    /// are discovered.
    pub open spec fn subdir_spec(self) -> Seq<u8> {
        match self {
            Mode::Ui => seq![116u8, 101u8, 115u8, 116u8, 115u8, 47u8, 117u8, 105u8],  // "tests/ui"
            Mode::SolcSolidity => seq![
                116u8, 101u8, 115u8, 116u8, 100u8, 97u8, 116u8, 97u8, 47u8, 115u8, 111u8, 108u8,
                105u8, 100u8, 105u8, 116u8, 121u8, 47u8, 116u8, 101u8, 115u8, 116u8,
            ],  // "testdata/solidity/test"
            Mode::SolcYul => seq![
                116u8, 101u8, 115u8, 116u8, 100u8, 97u8, 116u8, 97u8, 47u8, 115u8, 111u8, 108u8,
                105u8, 100u8, 105u8, 116u8, 121u8, 47u8, 116u8, 101u8, 115u8, 116u8, 47u8, 108u8,
                105u8, 98u8, 121u8, 117u8, 108u8,
            ],  // "testdata/solidity/test/libyul"
        }
    }

    /// The discovery directory as bytes, relative to the project root.
    pub fn subdir(self) -> (r: Vec<u8>)
        ensures
            r@ == self.subdir_spec(),
    {
        let mut r: Vec<u8> = Vec::new();
        match self {
            Mode::Ui => {
                let a: [u8; 8] = [116, 101, 115, 116, 115, 47, 117, 105];
                r.extend_from_slice(&a);
            },
            Mode::SolcSolidity => {
                let a: [u8; 22] = [
                    116, 101, 115, 116, 100, 97, 116, 97, 47, 115, 111, 108, 105, 100, 105, 116,
                    121, 47, 116, 101, 115, 116,
                ];
                r.extend_from_slice(&a);
            },
            Mode::SolcYul => {
                let a: [u8; 29] = [
                    116, 101, 115, 116, 100, 97, 116, 97, 47, 115, 111, 108, 105, 100, 105, 116,
                    121, 47, 116, 101, 115, 116, 47, 108, 105, 98, 121, 117, 108,
                ];
                r.extend_from_slice(&a);
            },
        }
        proof {
            assert(r@ =~= self.subdir_spec());
        }
        r
    }

    /// Whether discovery for this mode admits the secondary `.yul` extension
    /// beside the primary `.sol` one.
    pub fn admits_yul(self) -> (r: bool)
        ensures
            r == self.admits_yul_spec(),
    {
        match self {
            Mode::Ui => true,
            Mode::SolcSolidity => false,
            Mode::SolcYul => true,
        }
    }

    /// Spec view of `admits_yul`.
    pub open spec fn admits_yul_spec(self) -> bool {
        self is Ui || self is SolcYul
    }
}

/// The mode whose tag is `s`, if any.
pub fn parse_mode(s: &Vec<u8>) -> (r: Option<Mode>)
    ensures
        r == parse_mode_spec(s@),
{
    let ui = Mode::Ui.tag();
    let solidity = Mode::SolcSolidity.tag();
    let yul = Mode::SolcYul.tag();
    if crate::paths::eq_bytes(s, &ui) {
        Some(Mode::Ui)
    } else if crate::paths::eq_bytes(s, &solidity) {
        Some(Mode::SolcSolidity)
    } else if crate::paths::eq_bytes(s, &yul) {
        Some(Mode::SolcYul)
    } else {
        None
    }
}

/// The mode named by a tag: `Some` exactly on the three tags.
pub open spec fn parse_mode_spec(s: Seq<u8>) -> Option<Mode> {
    if s == tag_ui() {
        Some(Mode::Ui)
    } else if s == tag_solc_solidity() {
        Some(Mode::SolcSolidity)
    } else if s == tag_solc_yul() {
        Some(Mode::SolcYul)
    } else {
        None
    }
}

/// The modes a run covers: all three, in a fixed order, when the
/// mode-restriction variable is absent; the single named mode when it holds
/// a known tag; and an error — a fatal misconfiguration for the caller —
/// when it holds anything else.
pub fn active_modes(restriction: Option<&Vec<u8>>) -> (r: Result<Vec<Mode>, ()>)
    ensures
        match restriction {
            None => r matches Ok(v) && v@ =~= seq![Mode::Ui, Mode::SolcSolidity, Mode::SolcYul],
            Some(s) => match parse_mode_spec(s@) {
                Some(m) => r matches Ok(v) && v@ =~= seq![m],
                None => r is Err,
            },
        },
{
    match restriction {
        None => {
            let mut v: Vec<Mode> = Vec::new();
            v.push(Mode::Ui);
            v.push(Mode::SolcSolidity);
            v.push(Mode::SolcYul);
            proof {
                assert(v@ =~= seq![Mode::Ui, Mode::SolcSolidity, Mode::SolcYul]);
            }
            Ok(v)
        },
        Some(s) => match parse_mode(s) {
            Some(m) => {
                let mut v: Vec<Mode> = Vec::new();
                v.push(m);
                Ok(v)
            },
            None => Err(()),
        },
    }
}

} // verus!
