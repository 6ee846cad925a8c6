//! Turning an application entry into a concrete spawn plan: which program to
//! run, with which arguments, in which directory.

use vstd::prelude::*;

verus! {

/// A fully decided spawn: program, arguments, and working directory.
/// Carrying it out (and reporting failure) is the caller's job.
pub struct LaunchPlan {
    pub program: String,
    pub args: Vec<String>,
    pub cwd: Option<String>,
}

/// Why no spawn plan could be built.
#[derive(Clone, Copy, PartialEq, Eq, Structural, Debug)]
pub enum LaunchError {
    /// The entry's argument vector was empty.
    EmptyExec,
    /// The entry demands a terminal but none is configured or detected.
    NoTerminal,
}

/// The working directory a launch uses: the entry's own directory when it has
/// one, else the user's home directory, else none.
pub open spec fn spec_cwd(working_dir: Option<String>, home: Option<String>) -> Option<Seq<char>> {
    match working_dir {
        Some(d) => Some(d@),
        None => match home {
            Some(h) => Some(h@),
            None => None,
        },
    }
}

/// Build the spawn plan for an application entry.
///
/// A terminal entry runs as `terminal -e <argv...>`, preferring the configured
/// terminal over the detected one; without either, `NoTerminal`. A plain entry
/// runs its argument vector directly; an empty vector is `EmptyExec`. The
/// working directory is the entry's, else the home directory.
pub fn build_launch_plan(
    argv: &Vec<String>,
    working_dir: &Option<String>,
    needs_terminal: bool,
    config_terminal: &Option<String>,
    detected_terminal: &Option<String>,
    home: &Option<String>,
) -> (r: Result<LaunchPlan, LaunchError>)
    ensures
        needs_terminal && config_terminal is None && detected_terminal is None ==> r
            == Err::<LaunchPlan, LaunchError>(LaunchError::NoTerminal),
        needs_terminal && (config_terminal is Some || detected_terminal is Some) ==> (r
            matches Ok(p) && p.program@ == (if config_terminal is Some {
            config_terminal->0@
        } else {
            detected_terminal->0@
        }) && p.args@.len() == 1 + argv@.len() && p.args@[0]@ == "-e"@ && (forall|i: int|
            0 <= i < argv@.len() ==> p.args@[i + 1] == argv@[i])),
        !needs_terminal && argv@.len() == 0 ==> r == Err::<LaunchPlan, LaunchError>(
            LaunchError::EmptyExec,
        ),
        !needs_terminal && argv@.len() > 0 ==> (r matches Ok(p) && p.program == argv@[0]
            && p.args@ =~= argv@.skip(1)),
        r matches Ok(p) ==> match spec_cwd(*working_dir, *home) {
            Some(d) => p.cwd matches Some(c) && c@ == d,
            None => p.cwd is None,
        },
{
    let cwd: Option<String> = match working_dir {
        Some(d) => Some(d.clone()),
        None => match home {
            Some(h) => Some(h.clone()),
            None => None,
        },
    };
    if needs_terminal {
        let program: String = match config_terminal {
            Some(t) => t.clone(),
            None => match detected_terminal {
                Some(t) => t.clone(),
                None => {
                    return Err(LaunchError::NoTerminal);
                },
            },
        };
        let mut args: Vec<String> = Vec::new();
        let dash_e: String = String::from_str("-e");
        args.push(dash_e);
        let mut i: usize = 0;
        while i < argv.len()
            invariant
                i <= argv@.len(),
                args@.len() == 1 + i,
                args@[0]@ == "-e"@,
                forall|j: int| 0 <= j < i ==> args@[j + 1] == argv@[j],
            decreases argv@.len() - i,
        {
            args.push(argv[i].clone());
            i += 1;
        }
        Ok(LaunchPlan { program, args, cwd })
    } else {
        if argv.len() == 0 {
            return Err(LaunchError::EmptyExec);
        }
        let program = argv[0].clone();
        let mut args: Vec<String> = Vec::new();
        let mut i: usize = 1;
        while i < argv.len()
            invariant
                1 <= i <= argv@.len(),
                args@.len() == i - 1,
                forall|j: int| 0 <= j < i - 1 ==> args@[j] == argv@[j + 1],
            decreases argv@.len() - i,
        {
            args.push(argv[i].clone());
            i += 1;
        }
        assert(args@ =~= argv@.skip(1));
        Ok(LaunchPlan { program, args, cwd })
    }
}

} // verus!
