//! Which test runner a project uses.
//!
//! Decided from what the project root holds: a `package.json` naming
//! vitest or jest, pytest configuration, or a `Cargo.toml`.

use vstd::prelude::*;

use crate::runner::Runner;
use crate::strings::{contains_seq, str_contains};

verus! {

broadcast use vstd::string::group_string_axioms;

/// What the project root holds, as far as runner detection looks.
#[derive(Debug, Clone)]
pub struct ProjectSignals {
    /// The text of `package.json`, when it exists and reads.
    pub package_json: Option<String>,
    /// `pytest.ini` exists.
    pub has_pytest_ini: bool,
    /// `conftest.py` exists.
    pub has_conftest: bool,
    /// The text of `pyproject.toml`, when it exists and reads.
    pub pyproject: Option<String>,
    /// `Cargo.toml` exists.
    pub has_cargo_toml: bool,
}

/// The runner a project with `s` uses: vitest, then jest, when
/// `package.json` names them (quoted); pytest when `pytest.ini` or
/// `conftest.py` exists or `pyproject.toml` has a `[tool.pytest` table;
/// cargo when `Cargo.toml` exists.
pub open spec fn detected(s: ProjectSignals) -> Option<Runner> {
    let pkg = match s.package_json {
        Some(b) => if contains_seq(b@, "\"vitest\""@) {
            Some(Runner::Vitest)
        } else if contains_seq(b@, "\"jest\""@) {
            Some(Runner::Jest)
        } else {
            None
        },
        None => None,
    };
    let pyproject_pytest = match s.pyproject {
        Some(b) => contains_seq(b@, "[tool.pytest"@),
        None => false,
    };
    if pkg is Some {
        pkg
    } else if s.has_pytest_ini || s.has_conftest || pyproject_pytest {
        Some(Runner::Pytest)
    } else if s.has_cargo_toml {
        Some(Runner::CargoTest)
    } else {
        None
    }
}

/// Which runner a project is detected to use: a `package.json` naming
/// `"vitest"` runs vitest, else one naming `"jest"` runs jest; otherwise
/// `pytest.ini`, `conftest.py` or a `[tool.pytest` table in
/// `pyproject.toml` runs pytest; otherwise a `Cargo.toml` runs cargo; and
/// with none of these no runner is found.
pub proof fn lemma_detection_order(s: ProjectSignals)
    ensures
        (s.package_json matches Some(b) && contains_seq(b@, "\"vitest\""@)) ==> detected(s) == Some(Runner::Vitest),
        (s.package_json matches Some(b) && !contains_seq(b@, "\"vitest\""@) && contains_seq(b@, "\"jest\""@)) ==> detected(s)
            == Some(Runner::Jest),
        !(s.package_json matches Some(b) && (contains_seq(b@, "\"vitest\""@) || contains_seq(b@, "\"jest\""@))) ==> {
            let py = s.has_pytest_ini || s.has_conftest || (s.pyproject matches Some(t) && contains_seq(t@, "[tool.pytest"@));
            &&& py ==> detected(s) == Some(Runner::Pytest)
            &&& !py && s.has_cargo_toml ==> detected(s) == Some(Runner::CargoTest)
            &&& !py && !s.has_cargo_toml ==> detected(s) is None
        },
{
}

/// The first matching runner, or `None` when nothing identifies one.
pub fn autodetect(signals: &ProjectSignals) -> (r: Option<Runner>)
    ensures
        r == detected(*signals),
{
    if let Some(body) = &signals.package_json {
        if str_contains(body.as_str(), "\"vitest\"") {
            return Some(Runner::Vitest);
        }
        if str_contains(body.as_str(), "\"jest\"") {
            return Some(Runner::Jest);
        }
    }
    let pyproject_pytest = match &signals.pyproject {
        Some(b) => str_contains(b.as_str(), "[tool.pytest"),
        None => false,
    };
    if signals.has_pytest_ini || signals.has_conftest || pyproject_pytest {
        return Some(Runner::Pytest);
    }
    if signals.has_cargo_toml {
        return Some(Runner::CargoTest);
    }
    None
}

} // verus!
