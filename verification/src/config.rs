//! The configuration of the editor.
use vstd::prelude::*;

verus! {

/// The configuration of the editor.
#[derive(Clone, Copy, PartialEq, Eq, Structural, Debug)]
pub struct Config {
    /// The size of a tab, in columns.
    pub tab_stop: usize,
    /// The number of times Ctrl-Q has to be pressed to leave a modified text.
    pub quit_times: usize,
    /// The time for which a status message is shown, in nanoseconds.
    pub message_dur: u128,
    /// Whether to show line numbers.
    pub show_line_num: bool,
}

impl Default for Config {
    /// Tab stops of 4 columns, two warnings, messages shown for 3 seconds, line numbers.
    fn default() -> (r: Config)
        ensures
            r == (Config {
                tab_stop: 4,
                quit_times: 2,
                message_dur: 3_000_000_000,
                show_line_num: true,
            }),
    {
        Config { tab_stop: 4, quit_times: 2, message_dur: 3_000_000_000, show_line_num: true }
    }
}

} // verus!
