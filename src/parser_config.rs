use vstd::prelude::*;

verus! {

/// What to do with a record that cannot be read.
#[derive(Clone, Copy, Debug, PartialEq, Eq, Structural)]
pub enum OnError {
    /// Stop the replay and report the error.
    Stop,
    /// Report the error and skip the record.
    Print,
    /// Skip the record silently.
    Nothing,
}

/// Settings of a replay run.
#[derive(Clone, Debug)]
pub struct ParserConfig {
    pub verbose: bool,
    pub on_error: OnError,
    /// Directory that receives the snapshots.
    pub output_dir: String,
    /// Seconds of replayed time between two snapshots.
    pub save_interval_seconds: u32,
}

impl ParserConfig {
    pub fn new(verbose: bool, output_dir: String, on_error: OnError, save_interval_seconds: u32) -> (r:
        ParserConfig)
        ensures
            r.verbose == verbose,
            r.output_dir@ == output_dir@,
            r.on_error == on_error,
            r.save_interval_seconds == save_interval_seconds,
    {
        ParserConfig { verbose, output_dir, on_error, save_interval_seconds }
    }

    /// Verbose, reporting and skipping bad records, a snapshot every 10000
    /// seconds into `output/output_images`.
    pub fn new_default() -> (r: ParserConfig)
        ensures
            r.verbose,
            r.output_dir@ == "output/output_images"@,
            r.on_error == OnError::Print,
            r.save_interval_seconds == 10000,
    {
        ParserConfig {
            verbose: true,
            output_dir: "output/output_images".to_owned(),
            on_error: OnError::Print,
            save_interval_seconds: 10000,
        }
    }
}

} // verus!
