//! The conversion orchestrator's decisions: what must happen on disk for a
//! directive, and how the outcome of each attempt is judged.
//!
//! The side effects themselves — creating the destination directory and
//! running the external converter process — happen outside the library. The
//! library computes the plan (which directory must exist, which arguments the
//! converter takes) and classifies what the caller observed into the failure
//! taxonomy, one verdict per directive, so that one failing file never
//! disturbs the report of any other.

use vstd::prelude::*;

use crate::mapper::{Direction, Directive, DirectiveView};
use crate::paths::{lemma_file_name_start_props, parent_of, spec_parent};

verus! {

/// Why a single directive failed. Discovery failures are not here: a tree
/// that cannot be enumerated aborts the whole run before any directive
/// exists, while these are scoped to one file and leave the batch running.
#[derive(Clone, Copy, Debug, PartialEq, Eq)]
pub enum ConversionError {
    /// The destination directory could not be created.
    DirectoryCreation,
    /// The converter process could not be launched at all.
    ExternalTool,
    /// The converter ran and exited with a non-zero status.
    ConversionFailed,
}

/// What the caller must do for one directive: make sure `destination_dir`
/// exists (empty means the working directory, which always does), then run
/// the external converter with `tool_args`.
#[derive(Clone, Debug, PartialEq, Eq)]
pub struct ApplyPlan {
    pub destination_dir: String,
    pub tool_args: Vec<String>,
}

/// What the caller observed while carrying a plan out: whether the
/// destination directory was in place (already present, or created on
/// demand), whether the converter process could be launched, and whether it
/// exited with status zero.
#[derive(Clone, Copy, Debug, PartialEq, Eq)]
pub struct ApplyOutcome {
    pub dir_ready: bool,
    pub launched: bool,
    pub exit_zero: bool,
}

/// The format token the converter is asked for: `py` forward, `ipynb` in
/// reverse.
pub open spec fn spec_format_token(direction: Direction) -> Seq<char> {
    match direction {
        Direction::ForwardToScript => seq!['p', 'y'],
        Direction::ReverseToNotebook => seq!['i', 'p', 'y', 'n', 'b'],
    }
}

/// The converter's argument list for a directive: the target format, the
/// destination path, the source path.
pub open spec fn spec_tool_args(d: DirectiveView) -> Seq<Seq<char>> {
    seq![
        seq!['-', '-', 't', 'o', '='] + spec_format_token(d.direction),
        seq!['-', '-', 'o', 'u', 't', 'p', 'u', 't', '='] + d.destination_path,
        d.source_path,
    ]
}

/// The verdict on one directive's outcome: the directory must be in place,
/// the converter must launch, and it must exit with status zero; the first
/// stage that failed names the error.
pub open spec fn spec_classify(o: ApplyOutcome) -> Result<(), ConversionError> {
    if !o.dir_ready {
        Err(ConversionError::DirectoryCreation)
    } else if !o.launched {
        Err(ConversionError::ExternalTool)
    } else if !o.exit_zero {
        Err(ConversionError::ConversionFailed)
    } else {
        Ok(())
    }
}

/// The whole batch judged outcome by outcome.
pub open spec fn spec_batch_report(os: Seq<ApplyOutcome>) -> Seq<Result<(), ConversionError>> {
    Seq::new(os.len(), |i: int| spec_classify(os[i]))
}

/// The plan for one directive. The plan is a pure function of the directive,
/// so re-running a batch plans exactly the same work.
pub fn plan_apply(d: &Directive) -> (plan: ApplyPlan)
    ensures
        plan.destination_dir@ == spec_parent(d.destination_path@),
        plan.tool_args.deep_view() == spec_tool_args(d@),
{
    let destination_dir = parent_of(d.destination_path.as_str()).to_owned();
    let mut to_flag = String::from_str("--to=");
    match d.direction {
        Direction::ForwardToScript => to_flag.append("py"),
        Direction::ReverseToNotebook => to_flag.append("ipynb"),
    }
    let mut output_flag = String::from_str("--output=");
    output_flag.append(d.destination_path.as_str());
    let mut tool_args: Vec<String> = Vec::new();
    tool_args.push(to_flag);
    tool_args.push(output_flag);
    tool_args.push(d.source_path.clone());
    proof {
        reveal_strlit("--to=");
        reveal_strlit("py");
        reveal_strlit("ipynb");
        reveal_strlit("--output=");
        assert("--to="@ =~= seq!['-', '-', 't', 'o', '=']);
        assert("--output="@ =~= seq!['-', '-', 'o', 'u', 't', 'p', 'u', 't', '=']);
        assert("py"@ =~= seq!['p', 'y']);
        assert("ipynb"@ =~= seq!['i', 'p', 'y', 'n', 'b']);
        assert(tool_args.deep_view() =~~= spec_tool_args(d@));
    }
    ApplyPlan { destination_dir, tool_args }
}

/// The verdict on one directive's outcome.
pub fn classify_outcome(o: ApplyOutcome) -> (r: Result<(), ConversionError>)
    ensures
        r == spec_classify(o),
{
    if !o.dir_ready {
        Err(ConversionError::DirectoryCreation)
    } else if !o.launched {
        Err(ConversionError::ExternalTool)
    } else if !o.exit_zero {
        Err(ConversionError::ConversionFailed)
    } else {
        Ok(())
    }
}

/// The verdicts for a whole batch, one per directive, in order. Every
/// directive is judged, whatever happened to the others.
pub fn classify_batch(outcomes: &Vec<ApplyOutcome>) -> (rs: Vec<Result<(), ConversionError>>)
    ensures
        rs@ == spec_batch_report(outcomes@),
{
    let mut rs: Vec<Result<(), ConversionError>> = Vec::new();
    let n = outcomes.len();
    let mut i: usize = 0;
    while i < n
        invariant
            i <= n,
            n == outcomes@.len(),
            rs@.len() == i,
            forall|j: int| 0 <= j < i ==> rs@[j] == spec_classify(outcomes@[j]),
        decreases n - i,
    {
        rs.push(classify_outcome(outcomes[i]));
        i = i + 1;
    }
    proof {
        assert(rs@ =~= spec_batch_report(outcomes@));
    }
    rs
}

/// Law: batch isolation. Each directive's verdict is determined by its own
/// outcome alone: replacing the outcome of one directive — a conversion that
/// exits non-zero, say — leaves every other directive's verdict unchanged,
/// and the report still covers the whole batch.
pub proof fn lemma_batch_isolation(os: Seq<ApplyOutcome>, j: int, o: ApplyOutcome)
    requires
        0 <= j < os.len(),
    ensures
        spec_batch_report(os.update(j, o)).len() == os.len(),
        forall|i: int|
            0 <= i < os.len() && i != j ==> spec_batch_report(os.update(j, o))[i]
                == spec_batch_report(os)[i],
{
}

/// The directories present once a path's directory chain has been ensured:
/// the directory itself and every ancestor, up to the working directory.
pub open spec fn spec_dir_chain(d: Seq<char>) -> Set<Seq<char>>
    decreases d.len(),
    via spec_dir_chain_decreases
{
    if d.len() == 0 {
        Set::empty()
    } else {
        spec_dir_chain(spec_parent(d)).insert(d)
    }
}

#[via_fn]
proof fn spec_dir_chain_decreases(d: Seq<char>) {
    lemma_file_name_start_props(d);
}

/// The filesystem's directory set after the destination directory of a plan
/// has been ensured, ancestors included.
pub open spec fn spec_with_dir_tree(dirs: Set<Seq<char>>, d: Seq<char>) -> Set<Seq<char>> {
    dirs.union(spec_dir_chain(d))
}

/// Law: ensuring a destination directory is idempotent. Doing it a second
/// time — a second run of the orchestrator over the same directive — leaves
/// the directory set exactly as the first run left it; nothing already
/// present is disturbed, and the directory is there afterwards.
pub proof fn lemma_dir_creation_idempotent(dirs: Set<Seq<char>>, d: Seq<char>)
    ensures
        spec_with_dir_tree(spec_with_dir_tree(dirs, d), d) == spec_with_dir_tree(dirs, d),
        dirs.subset_of(spec_with_dir_tree(dirs, d)),
        d.len() > 0 ==> spec_with_dir_tree(dirs, d).contains(d),
{
    assert(spec_with_dir_tree(spec_with_dir_tree(dirs, d), d) =~= spec_with_dir_tree(dirs, d));
}

/// Law: ensuring a directory whose whole chain already exists changes
/// nothing at all.
pub proof fn lemma_existing_dirs_unchanged(dirs: Set<Seq<char>>, d: Seq<char>)
    requires
        spec_dir_chain(d).subset_of(dirs),
    ensures
        spec_with_dir_tree(dirs, d) == dirs,
{
    assert(spec_with_dir_tree(dirs, d) =~= dirs);
}

} // verus!
