//! The command line that runs a detected test runner with JSON output.

use vstd::prelude::*;

use crate::runner::Runner;

verus! {

broadcast use vstd::string::group_string_axioms;

/// A program and its arguments.
#[derive(Debug, Clone)]
pub struct CommandLine {
    pub program: String,
    pub args: Vec<String>,
}

/// The program that runs `r`.
pub open spec fn program_of(r: Runner) -> Seq<char> {
    match r {
        Runner::Jest | Runner::Vitest => "npx"@,
        Runner::Pytest => "python"@,
        Runner::CargoTest => "cargo"@,
    }
}

/// The arguments that make `r` report in JSON.
pub open spec fn base_args(r: Runner) -> Seq<Seq<char>> {
    match r {
        Runner::Jest => seq!["jest"@, "--reporters=default"@, "--json"@],
        Runner::Vitest => seq!["vitest"@, "run"@, "--reporter=json"@],
        Runner::Pytest => seq!["-m"@, "pytest"@, "--tb=short"@, "-q"@, "--json-report"@],
        Runner::CargoTest => seq!["test"@, "--no-fail-fast"@, "--"@, "-Z"@, "unstable-options"@, "--format"@, "json"@],
    }
}

/// The arguments that pass test-name filter `f` to `r`.
pub open spec fn filter_args(r: Runner, f: Seq<char>) -> Seq<Seq<char>> {
    match r {
        Runner::Jest | Runner::Vitest => seq!["-t"@, f],
        Runner::Pytest => seq!["-k"@, f],
        Runner::CargoTest => seq![f],
    }
}

/// The command that runs `runner` with JSON output, limited to the tests
/// `filter` names when there is one. It is run in the project root.
pub fn build_command(runner: Runner, filter: Option<&str>) -> (r: CommandLine)
    ensures
        r.program@ == program_of(runner),
        r.args@.map_values(|a: String| a@) == base_args(runner) + match filter {
            Some(f) => filter_args(runner, f@),
            None => Seq::empty(),
        },
{
    let mut args: Vec<String> = Vec::new();
    let program = match runner {
        Runner::Jest => {
            args.push("jest".to_owned());
            args.push("--reporters=default".to_owned());
            args.push("--json".to_owned());
            "npx".to_owned()
        },
        Runner::Vitest => {
            args.push("vitest".to_owned());
            args.push("run".to_owned());
            args.push("--reporter=json".to_owned());
            "npx".to_owned()
        },
        Runner::Pytest => {
            args.push("-m".to_owned());
            args.push("pytest".to_owned());
            args.push("--tb=short".to_owned());
            args.push("-q".to_owned());
            args.push("--json-report".to_owned());
            "python".to_owned()
        },
        Runner::CargoTest => {
            args.push("test".to_owned());
            args.push("--no-fail-fast".to_owned());
            args.push("--".to_owned());
            args.push("-Z".to_owned());
            args.push("unstable-options".to_owned());
            args.push("--format".to_owned());
            args.push("json".to_owned());
            "cargo".to_owned()
        },
    };
    assert(args@.map_values(|a: String| a@) =~= base_args(runner));
    let ghost base = args@.map_values(|a: String| a@);
    if let Some(f) = filter {
        match runner {
            Runner::Jest | Runner::Vitest => {
                args.push("-t".to_owned());
                args.push(f.to_owned());
            },
            Runner::Pytest => {
                args.push("-k".to_owned());
                args.push(f.to_owned());
            },
            Runner::CargoTest => {
                args.push(f.to_owned());
            },
        }
        assert(args@.map_values(|a: String| a@) =~= base + filter_args(runner, f@));
    } else {
        assert(args@.map_values(|a: String| a@) =~= base + Seq::<Seq<char>>::empty());
    }
    CommandLine { program, args }
}

} // verus!
