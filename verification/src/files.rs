//! Which files a run reads and where its output goes.

use vstd::prelude::*;
use vstd::string::*;

verus! {

/// Where the output of a run goes.
#[derive(Debug, Clone, PartialEq, Eq)]
pub enum Outputs {
    /// All of it goes to this one file.
    Single(String),
    /// Each input file has an output file of its own, in the same order.
    PerInput(Vec<String>),
}

/// Why a run cannot start.
#[derive(Debug, Clone, Copy, PartialEq, Eq, Structural)]
pub enum PlanError {
    /// There is no file to read.
    NoInput,
    /// Several input files were given, and one output file for all of them.
    OneOutputForMany,
}

/// The names of the input files, each with `suffix` at its end.
pub open spec fn suffixed(in_files: Seq<String>, suffix: Seq<char>) -> Seq<Seq<char>> {
    in_files.map_values(|name: String| name@ + suffix)
}

/// The files that an encoding run reads: those that were given or, where rows
/// are read and none was given, the template file itself.
pub open spec fn spec_encode_inputs(in_files: Seq<String>, template_file: String, rows: bool) -> Seq<String> {
    if rows && in_files.len() == 0 {
        seq![template_file]
    } else {
        in_files
    }
}

/// The files that an encoding run reads.
pub fn encode_inputs(in_files: Vec<String>, template_file: &String, rows: bool) -> (inputs: Vec<String>)
    ensures
        inputs@ == spec_encode_inputs(in_files@, *template_file, rows),
{
    let mut inputs: Vec<String> = in_files;
    if rows && inputs.len() == 0 {
        inputs.push(template_file.clone());
        assert(inputs@ =~= seq![*template_file]);
    }
    inputs
}

/// Where the output goes. A run needs a file to read. With an output file
/// named, all output goes there, which is refused where more than one input
/// file was given; with none named, each input file has an output file of its
/// own name with `suffix` at its end. `given` is the number of input files
/// that were named on the command line.
pub fn plan_outputs(in_files: &Vec<String>, given: usize, out_file: &String, suffix: &str) -> (r: Result<
    Outputs,
    PlanError,
>)
    ensures
        in_files@.len() == 0 ==> r == Err::<Outputs, PlanError>(PlanError::NoInput),
        in_files@.len() > 0 && given > 1 && out_file@.len() > 0 ==> r == Err::<Outputs, PlanError>(
            PlanError::OneOutputForMany,
        ),
        in_files@.len() > 0 && given <= 1 && out_file@.len() > 0 ==> r == Ok::<Outputs, PlanError>(
            Outputs::Single(*out_file),
        ),
        in_files@.len() > 0 && out_file@.len() == 0 ==> (r matches Ok(Outputs::PerInput(names)) && names.deep_view()
            == suffixed(in_files@, suffix@)),
{
    if in_files.len() == 0 {
        return Err(PlanError::NoInput);
    }
    if !out_file.as_str().is_empty() {
        if given > 1 {
            return Err(PlanError::OneOutputForMany);
        }
        return Ok(Outputs::Single(out_file.clone()));
    }
    let mut names: Vec<String> = Vec::new();
    let mut index: usize = 0;
    while index < in_files.len()
        invariant
            index <= in_files.len(),
            names@.len() == index,
            forall|i: int| 0 <= i < index ==> (#[trigger] names@[i])@ == in_files@[i]@ + suffix@,
        decreases in_files.len() - index,
    {
        let mut name: String = in_files[index].clone();
        name.append(suffix);
        names.push(name);
        index = index + 1;
    }
    assert(names.deep_view() =~= suffixed(in_files@, suffix@));
    Ok(Outputs::PerInput(names))
}

} // verus!
