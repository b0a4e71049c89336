use vstd::prelude::*;

use crate::parser_config::ParserConfig;
use crate::parser_image::{record_applied, ImageExpansionOffset, ParserImage};
use crate::record::Record;

verus! {

/// Whole seconds from `first` to `now`, both in milliseconds; 0 when `now` is
/// not later, and at most `u32::MAX`.
pub open spec fn elapsed_seconds(first: i64, now: i64) -> u32 {
    if now <= first {
        0
    } else if (now - first) / 1000 > u32::MAX {
        u32::MAX
    } else {
        ((now - first) / 1000) as u32
    }
}

/// A snapshot is due once more than one interval has passed since the last.
pub open spec fn snapshot_due(last_action: u32, elapsed: u32, interval: u32) -> bool {
    elapsed > last_action + interval
}

/// The last snapshot time moved forward by whole intervals, as far as `elapsed`
/// allows.
pub open spec fn advanced(last_action: u32, elapsed: u32, interval: u32) -> int {
    last_action + ((elapsed - last_action) / interval as int) * interval
}

/// Why a record could not be applied.
#[derive(Clone, Copy, Debug, PartialEq, Eq, Structural)]
pub enum ParseError {
    /// The canvas would have to grow past what can be held in memory.
    CanvasTooLarge,
}

/// Replays records onto a growing canvas and says when a snapshot is due.
pub struct Parser {
    config: ParserConfig,
    parser_image: ParserImage,
    first_timestamp: Option<i64>,
    last_action: u32,
}

impl Parser {
    pub closed spec fn config(&self) -> ParserConfig {
        self.config
    }

    pub closed spec fn image(&self) -> ParserImage {
        self.parser_image
    }

    /// When the first record was drawn, once one was.
    pub closed spec fn first_timestamp(&self) -> Option<i64> {
        self.first_timestamp
    }

    /// Seconds after the first record at which the last snapshot was due.
    pub closed spec fn last_action(&self) -> u32 {
        self.last_action
    }

    /// A parser with an empty canvas.
    pub fn new(config: ParserConfig) -> (r: Parser)
        ensures
            r.config() == config,
            r.image().canvas().width() == 0,
            r.image().canvas().height() == 0,
            r.image().offset() == (ImageExpansionOffset { left: 0, top: 0 }),
            r.first_timestamp() is None,
            r.last_action() == 0,
    {
        Parser { config, parser_image: ParserImage::new(), first_timestamp: None, last_action: 0 }
    }

    pub fn parser_image(&self) -> (r: &ParserImage)
        ensures
            *r == self.image(),
    {
        &self.parser_image
    }

    pub fn parser_config(&self) -> (r: &ParserConfig)
        ensures
            *r == self.config(),
    {
        &self.config
    }

    /// Draws `record` and returns the seconds elapsed since the first record
    /// when a snapshot is due. The first record only starts the clock. A
    /// record that would grow the canvas past what memory holds is refused and
    /// changes nothing. The snapshot interval must not be 0.
    pub fn handle_record(&mut self, record: &Record) -> (r: Result<Option<u32>, ParseError>)
        requires
            old(self).config().save_interval_seconds > 0,
        ensures
            r is Err <==> !old(self).image().growth_fits(record.coordinate),
            r is Err ==> r == Err::<Option<u32>, ParseError>(ParseError::CanvasTooLarge) && *final(self) == *old(self),
            r is Ok ==> {
                &&& record_applied(old(self).image(), final(self).image(), *record)
                &&& final(self).config() == old(self).config()
                &&& match old(self).first_timestamp() {
                    None => {
                        &&& final(self).first_timestamp() == Some(record.timestamp)
                        &&& final(self).last_action() == old(self).last_action()
                        &&& r == Ok::<Option<u32>, ParseError>(None)
                    },
                    Some(first) => {
                        let elapsed = elapsed_seconds(first, record.timestamp);
                        let interval = old(self).config().save_interval_seconds;
                        &&& final(self).first_timestamp() == old(self).first_timestamp()
                        &&& if snapshot_due(old(self).last_action(), elapsed, interval) {
                            &&& r == Ok::<Option<u32>, ParseError>(Some(elapsed))
                            &&& final(self).last_action() == advanced(
                                old(self).last_action(),
                                elapsed,
                                interval,
                            )
                        } else {
                            &&& r == Ok::<Option<u32>, ParseError>(None)
                            &&& final(self).last_action() == old(self).last_action()
                        }
                    },
                }
            },
    {
        if !self.parser_image.handle_record(record) {
            return Err(ParseError::CanvasTooLarge);
        }
        match self.first_timestamp {
            None => {
                self.first_timestamp = Some(record.timestamp);
                Ok(None)
            },
            Some(first) => {
                let elapsed = seconds_between(first, record.timestamp);
                let interval = self.config.save_interval_seconds;
                if elapsed as u64 > self.last_action as u64 + interval as u64 {
                    let elapsed_intervals = (elapsed - self.last_action) / interval;
                    assert(elapsed_intervals * interval <= elapsed - self.last_action) by (
                    nonlinear_arith)
                        requires
                            elapsed_intervals == (elapsed - self.last_action) / interval as int,
                            interval > 0,
                    ;
                    self.last_action = self.last_action + elapsed_intervals * interval;
                    Ok(Some(elapsed))
                } else {
                    Ok(None)
                }
            },
        }
    }
}

/// Whole seconds from `first` to `now`, both in milliseconds; see
/// `elapsed_seconds`.
pub fn seconds_between(first: i64, now: i64) -> (r: u32)
    ensures
        r == elapsed_seconds(first, now),
{
    if now <= first {
        return 0;
    }
    let diff: u64 = (now as i128 - first as i128) as u64;
    let seconds: u64 = diff / 1000;
    if seconds > u32::MAX as u64 {
        u32::MAX
    } else {
        seconds as u32
    }
}

} // verus!
