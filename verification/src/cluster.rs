//! What a batch over a directory of documents decides: which parameters the
//! batch takes, which files are converted, and where each result goes.

use crate::paths::{directory, directory_of, with_extension, with_extension_of};
use crate::text::{chars_of, string_of};
use vstd::prelude::*;
use vstd::string::StringExecFns;

verus! {

/// The kind of value that a parameter takes.
#[derive(Debug, Clone, Copy, PartialEq, Eq)]
pub enum ParameterKind {
    /// A string.
    Text,
    /// A boolean.
    Flag,
}

/// A parameter that the batch takes.
#[derive(Debug, Clone)]
pub struct Parameter {
    pub name: String,
    pub required: bool,
    pub kind: ParameterKind,
}

/// A `Parameter` with its name as a character sequence.
pub struct ParameterView {
    pub name: Seq<char>,
    pub required: bool,
    pub kind: ParameterKind,
}

impl View for Parameter {
    type V = ParameterView;

    open spec fn view(&self) -> ParameterView {
        ParameterView { name: self.name@, required: self.required, kind: self.kind }
    }
}

/// The parameters of the batch: the extension of the files to convert, the
/// extension of the files to write, and whether the converted files are
/// reported to a later stage. All three are required.
pub open spec fn declared_parameters() -> Seq<ParameterView> {
    seq![
        ParameterView { name: "input_extension"@, required: true, kind: ParameterKind::Text },
        ParameterView { name: "output_extension"@, required: true, kind: ParameterKind::Text },
        ParameterView {
            name: "include_artifact_mapping"@,
            required: true,
            kind: ParameterKind::Flag,
        },
    ]
}

/// The parameters that the batch takes.
pub fn get_params_schema() -> (parameters: Vec<Parameter>)
    ensures
        parameters.len() == 3,
        Seq::new(3, |i: int| parameters[i]@) == declared_parameters(),
{
    let mut parameters: Vec<Parameter> = Vec::new();
    parameters.push(
        Parameter {
            name: String::from_str("input_extension"),
            required: true,
            kind: ParameterKind::Text,
        },
    );
    parameters.push(
        Parameter {
            name: String::from_str("output_extension"),
            required: true,
            kind: ParameterKind::Text,
        },
    );
    parameters.push(
        Parameter {
            name: String::from_str("include_artifact_mapping"),
            required: true,
            kind: ParameterKind::Flag,
        },
    );
    assert(Seq::new(3, |i: int| parameters[i]@) =~= declared_parameters());
    parameters
}

/// An entry of the directory: its path and whether it is a directory.
#[derive(Debug, Clone)]
pub struct ClusterEntry {
    pub relative_path: String,
    pub is_dir: bool,
}

/// One conversion of the batch: the document to read and the file to write.
#[derive(Debug, Clone)]
pub struct Job {
    pub source: String,
    pub target: String,
}

/// A written file that is reported to a later stage: the file, and the
/// directory it belongs in, both relative to the root of the batch.
#[derive(Debug, Clone)]
pub struct Artifact {
    pub file: String,
    pub directory: String,
}

/// What the batch does: the conversions in the order of the directory, and
/// the files written by them that are reported to a later stage.
#[derive(Debug, Clone)]
pub struct ClusterPlan {
    pub jobs: Vec<Job>,
    pub artifacts: Vec<Artifact>,
}

/// `text` ends with `suffix`.
pub open spec fn ends_with(text: Seq<char>, suffix: Seq<char>) -> bool {
    suffix.len() <= text.len() && text.subrange(text.len() - suffix.len(), text.len() as int)
        == suffix
}

/// An entry is converted where it is a file whose path ends with the input
/// extension. The path is compared as text, by its end: a file is taken
/// also where what ends in those characters is not its extension.
pub open spec fn is_selected(path: Seq<char>, is_dir: bool, input_extension: Seq<char>) -> bool {
    !is_dir && ends_with(path, input_extension)
}

/// The conversions of a batch, as pairs of the document and the file to
/// write: one for each selected entry, in the order of the directory, the
/// target being the document's path with the output extension in place of
/// its own.
pub open spec fn planned(
    entries: Seq<ClusterEntry>,
    input_extension: Seq<char>,
    output_extension: Seq<char>,
) -> Seq<(Seq<char>, Seq<char>)>
    decreases entries.len(),
{
    if entries.len() == 0 {
        Seq::empty()
    } else {
        let front = planned(entries.drop_last(), input_extension, output_extension);
        let entry = entries.last();
        if is_selected(entry.relative_path@, entry.is_dir, input_extension) {
            front.push(
                (entry.relative_path@, with_extension_of(entry.relative_path@, output_extension)),
            )
        } else {
            front
        }
    }
}

/// The files that the conversions write, in their order, each with the
/// directory part of its path.
pub open spec fn targets(jobs: Seq<(Seq<char>, Seq<char>)>) -> Seq<(Seq<char>, Seq<char>)> {
    Seq::new(jobs.len(), |i: int| (jobs[i].1, directory_of(jobs[i].1)))
}

/// The files that a batch reports to a later stage: every file that it
/// writes, in the order of the directory, where the mapping is asked for,
/// and none where it is not.
pub open spec fn reported(
    entries: Seq<ClusterEntry>,
    input_extension: Seq<char>,
    output_extension: Seq<char>,
    include_artifact_mapping: bool,
) -> Seq<(Seq<char>, Seq<char>)> {
    if include_artifact_mapping {
        targets(planned(entries, input_extension, output_extension))
    } else {
        Seq::empty()
    }
}

/// The artifacts as pairs of the file and its directory.
pub open spec fn artifacts_view(artifacts: Seq<Artifact>) -> Seq<(Seq<char>, Seq<char>)> {
    Seq::new(artifacts.len(), |i: int| (artifacts[i].file@, artifacts[i].directory@))
}

/// The jobs as pairs of the document and the file to write.
pub open spec fn jobs_view(jobs: Seq<Job>) -> Seq<(Seq<char>, Seq<char>)> {
    Seq::new(jobs.len(), |i: int| (jobs[i].source@, jobs[i].target@))
}

/// Whether `text` ends with `suffix`.
pub fn has_suffix(text: &Vec<char>, suffix: &Vec<char>) -> (r: bool)
    ensures
        r == ends_with(text@, suffix@),
{
    if suffix.len() > text.len() {
        return false;
    }
    let shift: usize = text.len() - suffix.len();
    let mut k: usize = 0;
    while k < suffix.len()
        invariant
            k <= suffix.len(),
            shift + suffix.len() == text.len(),
            forall|j: int| 0 <= j < k ==> text@[shift + j] == suffix@[j],
        decreases suffix.len() - k,
    {
        if text[shift + k] != suffix[k] {
            assert(text@.subrange(shift as int, text.len() as int)[k as int] == text@[shift + k]);
            return false;
        }
        k += 1;
    }
    assert(text@.subrange(shift as int, text.len() as int) =~= suffix@);
    true
}

/// Plans the batch over the entries of a directory. Every file whose path
/// ends with `input_extension` is converted, in the order of the entries,
/// and its HTML goes to the same path with `output_extension`. Where the
/// mapping is asked for, each file that is written is reported to a later
/// stage; where it is not, none is.
pub fn process_cluster(
    entries: &Vec<ClusterEntry>,
    input_extension: &str,
    output_extension: &str,
    include_artifact_mapping: bool,
) -> (plan: ClusterPlan)
    ensures
        jobs_view(plan.jobs@) == planned(entries@, input_extension@, output_extension@),
        artifacts_view(plan.artifacts@) == reported(
            entries@,
            input_extension@,
            output_extension@,
            include_artifact_mapping,
        ),
{
    let input = chars_of(input_extension);
    let output = chars_of(output_extension);
    let mut jobs: Vec<Job> = Vec::new();
    let mut i: usize = 0;
    assert(jobs_view(jobs@) =~= planned(entries@.take(0), input_extension@, output_extension@));
    while i < entries.len()
        invariant
            i <= entries.len(),
            input@ == input_extension@,
            output@ == output_extension@,
            jobs_view(jobs@) == planned(
                entries@.take(i as int),
                input_extension@,
                output_extension@,
            ),
        decreases entries.len() - i,
    {
        let entry = &entries[i];
        let path = chars_of(entry.relative_path.as_str());
        assert(entries@.take(i + 1).drop_last() == entries@.take(i as int));
        assert(entries@.take(i + 1).last() == entries@[i as int]);
        if !entry.is_dir && has_suffix(&path, &input) {
            let moved = with_extension(&path, &output);
            let target = string_of(&moved, 0, moved.len());
            assert(moved@.subrange(0, moved.len() as int) == moved@);
            let ghost before = jobs_view(jobs@);
            jobs.push(Job { source: entry.relative_path.clone(), target });
            assert(jobs_view(jobs@) =~= before.push(
                (
                    entry.relative_path@,
                    with_extension_of(entry.relative_path@, output_extension@),
                ),
            ));
        }
        i += 1;
    }
    assert(entries@.take(entries.len() as int) == entries@);
    let mut artifacts: Vec<Artifact> = Vec::new();
    if include_artifact_mapping {
        let mut k: usize = 0;
        while k < jobs.len()
            invariant
                k <= jobs.len(),
                artifacts.len() == k,
                forall|j: int|
                    0 <= j < k ==> artifacts[j].file@ == jobs[j].target@ && artifacts[j].directory@
                        == directory_of(jobs[j].target@),
            decreases jobs.len() - k,
        {
            let written = chars_of(jobs[k].target.as_str());
            let beside = directory(&written);
            assert(beside@.subrange(0, beside.len() as int) == beside@);
            artifacts.push(
                Artifact {
                    file: jobs[k].target.clone(),
                    directory: string_of(&beside, 0, beside.len()),
                },
            );
            k += 1;
        }
        assert(artifacts_view(artifacts@) =~= targets(jobs_view(jobs@)));
    } else {
        assert(artifacts_view(artifacts@) =~= Seq::empty());
    }
    ClusterPlan { jobs, artifacts }
}

} // verus!
