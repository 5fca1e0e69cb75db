use vstd::prelude::*;
use crate::paths::{is_root_part, join, parent_of, root_part};
use crate::tree::clone_parts;

verus! {

/// Command-line options of a conversion run.
pub struct Cli {
    /// Input path, a file or a directory.
    pub input: Vec<String>,
    /// Output directory; the input's parent when absent.
    pub output: Option<Vec<String>>,
    /// Quality from 0 to 100.
    pub quality: u8,
    /// Lossless flag, honoured only at quality 100.
    pub lossless: u8,
    /// Encoder effort from 0 to 6.
    pub method: u8,
    /// How many directory levels below the input are visited.
    pub max_depth: u16,
    /// 1 to keep the decoded pixels where encoding does not shrink a file.
    pub use_initial_if_smaller: u8,
}

/// The highest quality; only there is the lossless flag honoured.
pub const MAX_QUALITY: u8 = 100;

/// What the input path turned out to be on disk.
#[derive(Clone, Copy, Debug, PartialEq, Eq, Structural)]
pub enum InputKind {
    File,
    Dir,
    /// Missing, unreadable, or neither a file nor a directory.
    Missing,
}

/// A run that cannot start.
#[derive(Clone, Copy, Debug, PartialEq, Eq, Structural)]
pub enum SetupError {
    /// The input path names neither a file nor a directory.
    InputMissing,
    /// The output path is relative and the working directory is unknown.
    NoWorkingDir,
}

/// The directory that an output path given as `output` resolves to, from the
/// working directory `cwd`.
pub open spec fn resolved_output(input: Seq<Seq<char>>, output: Option<Seq<Seq<char>>>, cwd: Option<Seq<Seq<char>>>) -> Option<Seq<Seq<char>>> {
    match output {
        Some(p) => if p.len() > 0 && p[0] == root_part() {
            Some(p)
        } else {
            match cwd {
                Some(c) => Some(join(c, p)),
                None => None,
            }
        },
        None => match parent_of(input) {
            Some(q) => Some(q),
            None => Some(seq![seq!['.']]),
        },
    }
}

impl Cli {
    /// The input path, where it names a file or a directory.
    pub fn input_path(&self, kind: InputKind) -> (r: Result<Vec<String>, SetupError>)
        ensures
            kind == InputKind::Missing <==> r is Err,
            r matches Err(e) ==> e == SetupError::InputMissing,
            r matches Ok(p) ==> p.deep_view() == self.input.deep_view(),
    {
        match kind {
            InputKind::Missing => Err(SetupError::InputMissing),
            _ => Ok(clone_parts(&self.input)),
        }
    }

    /// The output directory: the given one, made absolute against the working
    /// directory `cwd` where it is relative; else the input's parent, or "."
    /// where the input has none.
    pub fn output_path(&self, cwd: &Option<Vec<String>>) -> (r: Result<Vec<String>, SetupError>)
        ensures
            match resolved_output(
                self.input.deep_view(),
                match self.output {
                    Some(p) => Some(p.deep_view()),
                    None => None,
                },
                match *cwd {
                    Some(c) => Some(c.deep_view()),
                    None => None,
                },
            ) {
                Some(p) => r matches Ok(q) && q.deep_view() == p,
                None => r == Err::<Vec<String>, SetupError>(SetupError::NoWorkingDir),
            },
    {
        match &self.output {
            Some(p) => {
                if p.len() > 0 && is_root_part(&p[0]) {
                    assert(p.deep_view()[0] == p[0]@);
                    Ok(clone_parts(p))
                } else {
                    match cwd {
                        Some(c) => {
                            let mut r = clone_parts(c);
                            let mut i: usize = 0;
                            while i < p.len()
                                invariant
                                    i <= p.len(),
                                    r.deep_view() =~= c.deep_view() + p.deep_view().subrange(
                                        0,
                                        i as int,
                                    ),
                                decreases p.len() - i,
                            {
                                let part = p[i].clone();
                                let ghost before = r.deep_view();
                                r.push(part);
                                proof {
                                    assert(p.deep_view()[i as int] == part@);
                                    assert(r.deep_view() =~= before.push(part@));
                                    assert(c.deep_view() + p.deep_view().subrange(0, i + 1)
                                        =~= (c.deep_view() + p.deep_view().subrange(
                                        0,
                                        i as int,
                                    )).push(part@));
                                }
                                i = i + 1;
                            }
                            assert(p.deep_view().subrange(0, p.len() as int) =~= p.deep_view());
                            Ok(r)
                        },
                        None => Err(SetupError::NoWorkingDir),
                    }
                }
            },
            None => {
                let n = self.input.len();
                if n == 0 || is_root_part(&self.input[n - 1]) {
                    assert(n > 0 ==> self.input.deep_view().last() == self.input[n - 1]@);
                    let mut r: Vec<String> = Vec::new();
                    proof {
                        reveal_strlit(".");
                    }
                    let dot = String::from_str(".");
                    assert(dot@ =~= seq!['.']);
                    r.push(dot);
                    assert(r.deep_view() =~= seq![seq!['.']]);
                    Ok(r)
                } else {
                    let mut r = clone_parts(&self.input);
                    r.pop();
                    assert(r.deep_view() =~= self.input.deep_view().drop_last());
                    Ok(r)
                }
            },
        }
    }
}

/// The encoder knobs of a run, as integers.
#[derive(Clone, Copy, Debug, PartialEq, Eq, Structural)]
pub struct EncoderSettings {
    /// Quality from 0 to 100.
    pub quality: u8,
    /// Lossless flag as handed to the encoder.
    pub lossless: u8,
    /// Encoder effort.
    pub method: u8,
    /// Whether the encoder may use extra threads (1) or not (0).
    pub thread_level: u8,
}

/// The encoder knobs for the given options: quality and effort as given,
/// lossless only at the highest quality, extra encoder threads allowed.
pub fn generate_config(args: &Cli) -> (r: EncoderSettings)
    ensures
        r.quality == args.quality,
        r.lossless == (if args.quality == MAX_QUALITY {
            args.lossless
        } else {
            0u8
        }),
        r.method == args.method,
        r.thread_level == 1,
{
    let lossless = if args.quality == MAX_QUALITY {
        args.lossless
    } else {
        0
    };
    EncoderSettings { quality: args.quality, lossless, method: args.method, thread_level: 1 }
}

/// Why encoding failed.
#[derive(Clone, Copy, Debug, PartialEq, Eq, Structural)]
pub enum EncodeError {
    /// The encoder's validation rejected the configuration; nothing was
    /// allocated.
    InvalidConfiguration,
    /// The encoder reported failure, with the error code it left behind.
    Failed(i32),
}

/// The decision after the encoder validated the configuration: go on only
/// where validation gave a non-zero answer.
pub fn check_validation(valid: i32) -> (r: Result<(), EncodeError>)
    ensures
        r is Ok <==> valid != 0,
        r is Err ==> r == Err::<(), EncodeError>(EncodeError::InvalidConfiguration),
{
    if valid == 0 {
        Err(EncodeError::InvalidConfiguration)
    } else {
        Ok(())
    }
}

/// The decision after an encode call: the encoder returns zero on failure
/// and non-zero on success, so the buffer is kept exactly when `status` is
/// non-zero; otherwise the error code that the encoder recorded is reported.
pub fn encode_outcome(status: i32, error_code: i32) -> (r: Result<(), EncodeError>)
    ensures
        r is Ok <==> status != 0,
        r is Err ==> r == Err::<(), EncodeError>(EncodeError::Failed(error_code)),
{
    if status != 0 {
        Ok(())
    } else {
        Err(EncodeError::Failed(error_code))
    }
}

} // verus!
