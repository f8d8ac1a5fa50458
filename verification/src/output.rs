use vstd::prelude::*;

verus! {

/// Where the rendered document goes, or why nothing may be written.
#[derive(Clone, Copy, Debug, PartialEq, Eq, Structural)]
pub enum OutputPlan {
    /// Print to standard output; no file is touched.
    PrintStdout,
    /// Write (or overwrite) the explicit output file.
    WriteOutputFile,
    /// Overwrite the input file in place.
    WriteInputFile,
    /// The output file exists and overwriting was refused; nothing is
    /// written and the run fails.
    RefuseClobber,
}

/// The output policy: dry-run always prints and touches nothing; otherwise an
/// explicit output path wins, refused if the file exists under no-clobber;
/// otherwise the input file is rewritten in place; with no path at all the
/// document is printed.
pub open spec fn plan_spec(
    dry_run: bool,
    no_clobber: bool,
    have_output: bool,
    output_exists: bool,
    have_input: bool,
) -> OutputPlan {
    if dry_run {
        OutputPlan::PrintStdout
    } else if have_output {
        if output_exists && no_clobber {
            OutputPlan::RefuseClobber
        } else {
            OutputPlan::WriteOutputFile
        }
    } else if have_input {
        OutputPlan::WriteInputFile
    } else {
        OutputPlan::PrintStdout
    }
}

/// Decide the destination of the rendered document.  `output_exists` is
/// whether the explicit output file is already present on disk; it matters
/// only together with the no-clobber flag.
pub fn plan_output(
    dry_run: bool,
    no_clobber: bool,
    have_output: bool,
    output_exists: bool,
    have_input: bool,
) -> (r: OutputPlan)
    ensures
        r == plan_spec(dry_run, no_clobber, have_output, output_exists, have_input),
{
    if dry_run {
        OutputPlan::PrintStdout
    } else if have_output {
        if output_exists && no_clobber {
            OutputPlan::RefuseClobber
        } else {
            OutputPlan::WriteOutputFile
        }
    } else if have_input {
        OutputPlan::WriteInputFile
    } else {
        OutputPlan::PrintStdout
    }
}

/// A dry run prints to standard output and touches no file, whatever the
/// other flags say.
pub proof fn lemma_dry_run_prints(
    no_clobber: bool,
    have_output: bool,
    output_exists: bool,
    have_input: bool,
)
    ensures
        plan_spec(true, no_clobber, have_output, output_exists, have_input)
            == OutputPlan::PrintStdout,
{
}

/// Overwriting is refused exactly when a run that is not a dry run names an
/// output file that already exists while no-clobber is set; nothing is
/// written then.
pub proof fn lemma_no_clobber(
    dry_run: bool,
    no_clobber: bool,
    have_output: bool,
    output_exists: bool,
    have_input: bool,
)
    ensures
        (plan_spec(dry_run, no_clobber, have_output, output_exists, have_input)
            == OutputPlan::RefuseClobber) == (!dry_run && have_output && output_exists
            && no_clobber),
{
}

} // verus!
