use vstd::prelude::*;
use crate::paths::{file_stem, plan_write, stem_of_path, write_plan, FileError, WritePlan};
use crate::stats::{aggregate, fits, lemma_sum_concat, plus, sum_of, Stats};
use crate::tree::{clone_parts, flatten, node_files, Node};

verus! {

/// The input side of a run: its root and the files found below it.
pub struct InputPaths {
    pub root: Vec<String>,
    pub images: Vec<Vec<String>>,
}

/// The files of a run and the directory that receives their conversions.
pub struct Paths {
    pub input: InputPaths,
    pub output_root: Vec<String>,
}

impl Paths {
    /// Collects the files of the tree read at `input_path`, down to
    /// `max_depth` levels below it, for conversion into `output_path`.
    pub fn build(tree: &Node, input_path: Vec<String>, output_path: Vec<String>, max_depth: u16) -> (r: Paths)
        ensures
            r.input.root.deep_view() == input_path.deep_view(),
            r.input.images.deep_view() == node_files(*tree, max_depth as nat),
            r.output_root.deep_view() == output_path.deep_view(),
    {
        let images = flatten(tree, max_depth);
        Paths { input: InputPaths { root: input_path, images }, output_root: output_path }
    }
}

/// Which bytes are written for a converted file.
#[derive(Clone, Copy, Debug, PartialEq, Eq, Structural)]
pub enum Payload {
    /// The encoder's output.
    Encoded,
    /// The decoded pixel bytes of the input image.
    Pixels,
}

/// The fallback decision for one file.
#[derive(Clone, Copy, Debug, PartialEq, Eq, Structural)]
pub struct Resolution {
    pub payload: Payload,
    /// The output size that the run reports for the file.
    pub reported_size: u64,
}

/// The fallback rule: with the flag at 1 and an encoding larger than the
/// input, the decoded pixels are written and the input size reported;
/// otherwise the encoding is written and its length reported.
pub open spec fn fallback(encoded_len: u64, input_size: u64, use_initial_if_smaller: u8) -> Resolution {
    if use_initial_if_smaller == 1 && input_size < encoded_len {
        Resolution { payload: Payload::Pixels, reported_size: input_size }
    } else {
        Resolution { payload: Payload::Encoded, reported_size: encoded_len }
    }
}

/// Decides what is written for a file whose input is `input_size` bytes and
/// whose encoding is `encoded_len` bytes. With the flag at 1 and an encoding
/// larger than the input, the decoded pixels are written and the input size is
/// reported; otherwise the encoding is written and its length reported.
pub fn resolve_fallback(encoded_len: u64, input_size: u64, use_initial_if_smaller: u8) -> (r: Resolution)
    ensures
        r == fallback(encoded_len, input_size, use_initial_if_smaller),
{
    if use_initial_if_smaller == 1 && input_size < encoded_len {
        Resolution { payload: Payload::Pixels, reported_size: input_size }
    } else {
        Resolution { payload: Payload::Encoded, reported_size: encoded_len }
    }
}

/// The contribution of one file to the run's totals: its input size, its
/// reported output size where it was converted and 0 where it failed, and a
/// count of one.
pub open spec fn task_totals(input_size: u64, converted: Result<u64, FileError>) -> Stats {
    Stats {
        input_size,
        output_size: match converted {
            Ok(n) => n,
            Err(_) => 0,
        },
        count: 1,
    }
}

/// The per-file results of a run, as their contributions.
pub open spec fn contributions(outcomes: Seq<(u64, Result<u64, FileError>)>) -> Seq<Stats> {
    outcomes.map_values(|o: (u64, Result<u64, FileError>)| task_totals(o.0, o.1))
}

/// The summed output sizes of the files that were converted.
pub open spec fn converted_output(outcomes: Seq<(u64, Result<u64, FileError>)>) -> int
    decreases outcomes.len(),
{
    if outcomes.len() == 0 {
        0
    } else {
        converted_output(outcomes.drop_last()) + match outcomes.last().1 {
            Ok(n) => n as int,
            Err(_) => 0,
        }
    }
}

/// The summed input sizes of all files.
pub open spec fn input_total(outcomes: Seq<(u64, Result<u64, FileError>)>) -> int
    decreases outcomes.len(),
{
    if outcomes.len() == 0 {
        0
    } else {
        input_total(outcomes.drop_last()) + outcomes.last().0 as int
    }
}

/// The contribution of one file to the run's totals.
pub fn task_stats(input_size: u64, converted: &Result<u64, FileError>) -> (r: Stats)
    ensures
        r == task_totals(input_size, *converted),
{
    let output_size = match converted {
        Ok(n) => *n,
        Err(_) => 0,
    };
    Stats { input_size, output_size, count: 1 }
}

/// Reduces the per-file results of a run into its totals; `None` where a total
/// does not fit in 64 bits.
pub fn tally(outcomes: &Vec<(u64, Result<u64, FileError>)>) -> (r: Option<Stats>)
    ensures
        r is Some <==> fits(sum_of(contributions(outcomes@))),
        r matches Some(s) ==> s@ == sum_of(contributions(outcomes@)),
{
    let mut parts: Vec<Stats> = Vec::new();
    let mut i: usize = 0;
    while i < outcomes.len()
        invariant
            i <= outcomes.len(),
            parts@ == contributions(outcomes@.subrange(0, i as int)),
        decreases outcomes.len() - i,
    {
        let (size, converted) = &outcomes[i];
        parts.push(task_stats(*size, converted));
        assert(outcomes@.subrange(0, i + 1) =~= outcomes@.subrange(0, i as int).push(outcomes@[i as int]));
        assert(parts@ =~= contributions(outcomes@.subrange(0, i + 1)));
        i = i + 1;
    }
    assert(outcomes@.subrange(0, i as int) =~= outcomes@);
    aggregate(&parts)
}

/// Over a run of N files of which any number failed: the count is N, the input
/// total is the sum of all input sizes, and the output total is the sum of the
/// converted files' outputs alone, failures adding 0.
pub proof fn lemma_failures_add_nothing(outcomes: Seq<(u64, Result<u64, FileError>)>)
    ensures
        sum_of(contributions(outcomes)).2 == outcomes.len(),
        sum_of(contributions(outcomes)).0 == input_total(outcomes),
        sum_of(contributions(outcomes)).1 == converted_output(outcomes),
    decreases outcomes.len(),
{
    if outcomes.len() > 0 {
        lemma_failures_add_nothing(outcomes.drop_last());
        assert(contributions(outcomes).drop_last() =~= contributions(outcomes.drop_last()));
        assert(contributions(outcomes).last() == task_totals(outcomes.last().0, outcomes.last().1));
    } else {
        assert(contributions(outcomes) =~= Seq::<Stats>::empty());
    }
}

/// Splitting a run's files into two parts and converting each part on its
/// own gives totals whose field-wise sums are the totals of the whole run.
pub proof fn lemma_run_splits(a: Seq<(u64, Result<u64, FileError>)>, b: Seq<(u64, Result<u64, FileError>)>)
    ensures
        sum_of(contributions(a + b)) == plus(sum_of(contributions(a)), sum_of(contributions(b))),
{
    assert(contributions(a + b) =~= contributions(a) + contributions(b));
    lemma_sum_concat(contributions(a), contributions(b));
}

/// Where the conversion of one file stands.
pub enum FileState {
    /// The input is to be decoded; the output keeps the stem `stem`.
    Decoding { stem: String },
    /// The decoded image is to be encoded.
    Encoding { stem: String },
    /// The encoding is `encoded_len` bytes; whether the output target exists
    /// is to be found out.
    Probing { stem: String, encoded_len: u64 },
    /// The planned directory is to be created and the input's size read.
    Preparing { plan: WritePlan, encoded_len: u64 },
    /// The chosen payload is to be written to `file`.
    Writing { file: Vec<String>, resolution: Resolution },
    /// The conversion is over: the reported output size, or why it failed.
    Done(Result<u64, FileError>),
}

/// What happened when the last action was carried out.
pub enum Event {
    /// Whether the input decoded as an image.
    Decoded(bool),
    /// The encoding's length, or `None` where encoding failed.
    Encoded(Option<u64>),
    /// Whether the output target exists.
    Probed(bool),
    /// The input's size once the planned directory exists, or `None` where
    /// creating it or reading the size failed.
    Prepared(Option<u64>),
    /// Whether the payload was written.
    Written(bool),
}

/// What is to be done next for a file.
pub enum Action {
    /// Decode the input.
    Decode,
    /// Encode the decoded image.
    Encode,
    /// Find out whether this path exists.
    Probe(Vec<String>),
    /// Create this directory, where given, and read the input's size.
    Prepare(Option<Vec<String>>),
    /// Write this payload to this file.
    Write(Vec<String>, Payload),
    /// Report this outcome.
    Finish(Result<u64, FileError>),
}

/// The conversion of one input file into its output target.
pub struct FileTask {
    pub target: Vec<String>,
    pub use_initial_if_smaller: u8,
    pub state: FileState,
}

/// The state a task moves to when `event` arrives in `state`. An event that
/// does not answer the pending action leaves the state as it is.
pub open spec fn advanced(task: FileTask, event: Event, next: FileState) -> bool {
    match (task.state, event) {
        (FileState::Decoding { stem }, Event::Decoded(ok)) => if ok {
            next matches FileState::Encoding { stem: s } && s@ == stem@
        } else {
            next == FileState::Done(Err(FileError::NotAnImage))
        },
        (FileState::Encoding { stem }, Event::Encoded(len)) => match len {
            Some(n) => next matches FileState::Probing { stem: s, encoded_len } && s@ == stem@
                && encoded_len == n,
            None => next == FileState::Done(Err(FileError::EncodeFailed)),
        },
        (FileState::Probing { stem, encoded_len }, Event::Probed(exists)) => match write_plan(
            task.target.deep_view(),
            exists,
            stem@,
        ) {
            Err(e) => next == FileState::Done(Err(e)),
            Ok((dir, file)) => next matches FileState::Preparing { plan, encoded_len: n } && n
                == encoded_len && plan.file.deep_view() == file && (match plan.create_dir {
                Some(d) => dir == Some(d.deep_view()),
                None => dir is None,
            }),
        },
        (FileState::Preparing { plan, encoded_len }, Event::Prepared(size)) => match size {
            Some(input_size) => next matches FileState::Writing { file, resolution }
                && file.deep_view() == plan.file.deep_view() && resolution == fallback(
                encoded_len,
                input_size,
                task.use_initial_if_smaller,
            ),
            None => next == FileState::Done(Err(FileError::Io)),
        },
        (FileState::Writing { file, resolution }, Event::Written(ok)) => if ok {
            next == FileState::Done(Ok(resolution.reported_size))
        } else {
            next == FileState::Done(Err(FileError::Io))
        },
        _ => next == task.state,
    }
}

impl FileTask {
    /// Starts converting `input` into `target`; an input without a file name
    /// fails at once.
    pub fn start(input: &Vec<String>, target: Vec<String>, use_initial_if_smaller: u8) -> (r: FileTask)
        ensures
            r.target == target,
            r.use_initial_if_smaller == use_initial_if_smaller,
            match stem_of_path(input.deep_view()) {
                Some(stem) => r.state matches FileState::Decoding { stem: s } && s@ == stem,
                None => r.state == FileState::Done(Err(FileError::NoFileStem)),
            },
    {
        let state = match file_stem(input) {
            Some(stem) => FileState::Decoding { stem },
            None => FileState::Done(Err(FileError::NoFileStem)),
        };
        FileTask { target, use_initial_if_smaller, state }
    }

    /// What is to be done next.
    pub fn action(&self) -> (r: Action)
        ensures
            match self.state {
                FileState::Decoding { .. } => r is Decode,
                FileState::Encoding { .. } => r is Encode,
                FileState::Probing { .. } => r matches Action::Probe(p) && p.deep_view()
                    == self.target.deep_view(),
                FileState::Preparing { plan, .. } => r matches Action::Prepare(d) && match (
                    d,
                    plan.create_dir,
                ) {
                    (Some(a), Some(b)) => a.deep_view() == b.deep_view(),
                    (None, None) => true,
                    _ => false,
                },
                FileState::Writing { file, resolution } => r matches Action::Write(f, payload)
                    && f.deep_view() == file.deep_view() && payload == resolution.payload,
                FileState::Done(result) => r == Action::Finish(result),
            },
    {
        match &self.state {
            FileState::Decoding { .. } => Action::Decode,
            FileState::Encoding { .. } => Action::Encode,
            FileState::Probing { .. } => Action::Probe(clone_parts(&self.target)),
            FileState::Preparing { plan, .. } => Action::Prepare(
                match &plan.create_dir {
                    Some(d) => Some(clone_parts(d)),
                    None => None,
                },
            ),
            FileState::Writing { file, resolution } => Action::Write(
                clone_parts(file),
                resolution.payload,
            ),
            FileState::Done(result) => Action::Finish(*result),
        }
    }

    /// Moves the task on by what happened.
    pub fn step(&mut self, event: Event)
        ensures
            final(self).target == old(self).target,
            final(self).use_initial_if_smaller == old(self).use_initial_if_smaller,
            advanced(*old(self), event, final(self).state),
    {
        let mut state = FileState::Done(Err(FileError::Io));
        std::mem::swap(&mut self.state, &mut state);
        let next = match (state, event) {
            (FileState::Decoding { stem }, Event::Decoded(ok)) => {
                if ok {
                    FileState::Encoding { stem }
                } else {
                    FileState::Done(Err(FileError::NotAnImage))
                }
            },
            (FileState::Encoding { stem }, Event::Encoded(len)) => match len {
                Some(encoded_len) => FileState::Probing { stem, encoded_len },
                None => FileState::Done(Err(FileError::EncodeFailed)),
            },
            (FileState::Probing { stem, encoded_len }, Event::Probed(exists)) => {
                match plan_write(&self.target, exists, &stem) {
                    Ok(plan) => FileState::Preparing { plan, encoded_len },
                    Err(e) => FileState::Done(Err(e)),
                }
            },
            (FileState::Preparing { plan, encoded_len }, Event::Prepared(size)) => match size {
                Some(input_size) => FileState::Writing {
                    file: plan.file,
                    resolution: resolve_fallback(
                        encoded_len,
                        input_size,
                        self.use_initial_if_smaller,
                    ),
                },
                None => FileState::Done(Err(FileError::Io)),
            },
            (FileState::Writing { file, resolution }, Event::Written(ok)) => {
                if ok {
                    FileState::Done(Ok(resolution.reported_size))
                } else {
                    FileState::Done(Err(FileError::Io))
                }
            },
            (unchanged, _) => unchanged,
        };
        self.state = next;
    }
}

} // verus!
