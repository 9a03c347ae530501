//! What is printed around the commands run in the project directories.

use vstd::prelude::*;

use crate::cli::CommandResult;
use crate::path_style::{rendered, PathFacts, PathStyle};
use crate::took::{took_text, Took};

verus! {

/// The settings shared by the commands of a run.
pub struct Config {
    pub path_style: PathStyle,
    pub multithreaded: bool,
    pub line_prefix_width: usize,
    pub no_header: bool,
    pub result: CommandResult,
}

/// What has been printed so far in a run, which decides where blank lines
/// go between the outputs of the commands.
pub struct Separator {
    /// Nothing has been printed yet.
    pub first: bool,
    /// The last thing printed was a command's output.
    pub need_linesplit: bool,
}

/// The command around which things are printed: the settings of the run
/// and the directory it runs in.
pub struct Harness<'a> {
    pub config: &'a Config,
    pub path: &'a str,
}

/// How the output of a command that was collected is printed.
pub struct CollectPlan {
    /// Whether anything is printed for this command at all.
    pub show: bool,
    /// A blank line on standard output first.
    pub blank_line: bool,
    /// The line printed before the standard output, if any.
    pub stdout_header: Option<String>,
    /// A line break after the standard output, which does not end in one.
    pub stdout_newline: bool,
    /// The line printed before the standard error, if any.
    pub stderr_header: Option<String>,
    /// A line break after the standard error, which does not end in one.
    pub stderr_newline: bool,
}

/// `s` padded on the right with spaces to `width` characters.
pub open spec fn pad_right(s: Seq<char>, width: nat) -> Seq<char> {
    if s.len() >= width {
        s
    } else {
        s + Seq::new((width - s.len()) as nat, |i: int| ' ')
    }
}

/// Whether bytes are there and the last one is not a line break.
pub open spec fn lacks_final_newline(bytes: Seq<u8>) -> bool {
    bytes.len() > 0 && bytes.last() != 10u8
}

impl Config {
    /// The settings of a run with `threads` commands at a time.
    pub fn new(
        path_style: PathStyle,
        threads: usize,
        line_prefix_width: usize,
        no_header: bool,
        result: CommandResult,
    ) -> (r: Config)
        requires
            threads >= 1,
        ensures
            r.path_style == path_style,
            r.multithreaded == (threads > 1),
            r.line_prefix_width == line_prefix_width,
            r.no_header == no_header,
            r.result == result,
    {
        Config { path_style, multithreaded: threads > 1, line_prefix_width, no_header, result }
    }

    /// The harness of the command run in `path`.
    pub fn create<'a>(&'a self, path: &'a str) -> (r: Harness<'a>)
        ensures
            r.config == self,
            r.path == path,
    {
        Harness { config: self, path }
    }
}

impl Separator {
    /// Nothing printed yet.
    pub fn new() -> (r: Separator)
        ensures
            r.first,
            !r.need_linesplit,
    {
        Separator { first: true, need_linesplit: false }
    }
}

impl<'a> Harness<'a> {
    /// The path, shown in the style of the run.
    pub open spec fn path_text(&self, facts: PathFacts) -> Seq<char> {
        rendered(self.config.path_style, self.path@, facts)
    }

    fn path(&self, facts: &PathFacts) -> (r: String)
        ensures
            r@ == self.path_text(*facts),
    {
        self.config.path_style.path(self.path).render(facts)
    }

    /// The prefix of every output line of the command: the path, padded to
    /// the configured width, and two spaces.
    pub fn line_prefix(&self, facts: &PathFacts) -> (r: String)
        ensures
            r@ == pad_right(self.path_text(*facts), self.config.line_prefix_width as nat) + seq![
                ' ',
                ' ',
            ],
    {
        let mut out = self.path(facts);
        let ghost text = out@;
        let len = out.as_str().unicode_len();
        let width = self.config.line_prefix_width;
        let mut i: usize = len;
        while i < width
            invariant
                len == text.len(),
                len <= i,
                len < width ==> i <= width,
                len >= width ==> i == len,
                out@ == text + Seq::new((i - len) as nat, |j: int| ' '),
            decreases width - i,
        {
            proof {
                reveal_strlit(" ");
            }
            out.append(" ");
            assert(out@ =~= text + Seq::new((i + 1 - len) as nat, |j: int| ' '));
            i = i + 1;
        }
        proof {
            reveal_strlit("  ");
        }
        let ghost padded = out@;
        out.append("  ");
        assert(padded =~= pad_right(text, width as nat));
        out
    }

    /// The header printed before a command whose output goes straight to
    /// the terminal: only when one command runs at a time and headers are
    /// wanted, then the path on a line of its own, after a blank line unless
    /// it is the first thing printed.
    pub fn inherit_header(&self, separator: &mut Separator, facts: &PathFacts) -> (r: Option<String>)
        ensures
            if self.config.multithreaded || self.config.no_header {
                r is None && *final(separator) == *old(separator)
            } else {
                &&& final(separator).first == false
                &&& final(separator).need_linesplit == old(separator).need_linesplit
                &&& r matches Some(t) && t@ == if old(separator).first {
                    self.path_text(*facts) + seq!['\n']
                } else {
                    seq!['\n'] + self.path_text(*facts) + seq!['\n']
                }
            },
    {
        if self.config.multithreaded || self.config.no_header {
            return None;
        }
        let first = separator.first;
        separator.first = false;
        proof {
            reveal_strlit("\n");
        }
        let mut out = String::new();
        if !first {
            out.append("\n");
        }
        let path = self.path(facts);
        out.append(path.as_str());
        out.append("\n");
        proof {
            if first {
                assert(out@ =~= self.path_text(*facts) + seq!['\n']);
            } else {
                assert(out@ =~= seq!['\n'] + self.path_text(*facts) + seq!['\n']);
            }
        }
        Some(out)
    }

    /// How to print the collected output of a command that finished, with
    /// or without success. Nothing is printed for a command without output
    /// whose result is not shown either. A blank line separates this
    /// output from earlier output, and from the results before it where
    /// this command has output; headers name the path and the stream
    /// unless headers are off.
    pub fn collect(
        &self,
        separator: &mut Separator,
        stdout: &Vec<u8>,
        stderr: &Vec<u8>,
        success: bool,
        facts: &PathFacts,
    ) -> (r: CollectPlan)
        ensures
            ({
                let has_output = stdout@.len() > 0 || stderr@.len() > 0;
                let show_result = self.config.result.shows(success);
                let any_harness = !self.config.no_header || self.config.result
                    != CommandResult::Never;
                if !has_output && !show_result {
                    !r.show && !r.blank_line && r.stdout_header is None && r.stderr_header is None
                        && !r.stdout_newline && !r.stderr_newline && *final(separator)
                        == *old(separator)
                } else {
                    &&& r.show
                    &&& r.blank_line == (any_harness && (old(separator).need_linesplit || (
                    has_output && !old(separator).first)))
                    &&& final(separator).first == (old(separator).first && !any_harness)
                    &&& final(separator).need_linesplit == if any_harness {
                        has_output
                    } else {
                        old(separator).need_linesplit
                    }
                    &&& (if stdout@.len() > 0 && !self.config.no_header {
                        r.stdout_header matches Some(h) && h@ == self.path_text(*facts) + seq![
                            ' ',
                            ' ',
                            's',
                            't',
                            'd',
                            'o',
                            'u',
                            't',
                            ':',
                        ]
                    } else {
                        r.stdout_header is None
                    })
                    &&& (if stderr@.len() > 0 && !self.config.no_header {
                        r.stderr_header matches Some(h) && h@ == self.path_text(*facts) + seq![
                            ' ',
                            ' ',
                            's',
                            't',
                            'd',
                            'e',
                            'r',
                            'r',
                            ':',
                        ]
                    } else {
                        r.stderr_header is None
                    })
                    &&& r.stdout_newline == lacks_final_newline(stdout@)
                    &&& r.stderr_newline == lacks_final_newline(stderr@)
                }
            }),
    {
        let has_output = stdout.len() > 0 || stderr.len() > 0;
        let show_result = self.config.result.print(success);
        if !has_output && !show_result {
            return CollectPlan {
                show: false,
                blank_line: false,
                stdout_header: None,
                stdout_newline: false,
                stderr_header: None,
                stderr_newline: false,
            };
        }
        let any_harness = !self.config.no_header || self.config.result != CommandResult::Never;
        let mut blank_line = false;
        if any_harness {
            let first = separator.first;
            separator.first = false;
            let need_linesplit = separator.need_linesplit;
            separator.need_linesplit = has_output;
            blank_line = need_linesplit || (has_output && !first);
        }
        proof {
            reveal_strlit("  stdout:");
            reveal_strlit("  stderr:");
        }
        let stdout_header = if stdout.len() > 0 && !self.config.no_header {
            let mut h = self.path(facts);
            h.append("  stdout:");
            Some(h)
        } else {
            None
        };
        let stderr_header = if stderr.len() > 0 && !self.config.no_header {
            let mut h = self.path(facts);
            h.append("  stderr:");
            Some(h)
        } else {
            None
        };
        let stdout_newline = stdout.len() > 0 && stdout[stdout.len() - 1] != 10u8;
        let stderr_newline = stderr.len() > 0 && stderr[stderr.len() - 1] != 10u8;
        CollectPlan {
            show: true,
            blank_line,
            stdout_header,
            stdout_newline,
            stderr_header,
            stderr_newline,
        }
    }

    /// The line that reports a finished command, when the run shows it:
    /// how long it took, its exit status as `status` describes it, and the
    /// path.
    pub fn result(&self, took: &Took, status: &str, success: bool, facts: &PathFacts) -> (r: Option<
        String,
    >)
        ensures
            if self.config.result.shows(success) {
                r matches Some(t) && t@ == seq!['t', 'o', 'o', 'k', ' '] + took_text(
                    took.secs as nat,
                    took.millis as nat,
                ) + seq![' ', ' '] + status@ + seq![' ', 'i', 'n', ' '] + self.path_text(*facts)
            } else {
                r is None
            },
    {
        if !self.config.result.print(success) {
            return None;
        }
        proof {
            reveal_strlit("took ");
            reveal_strlit("  ");
            reveal_strlit(" in ");
        }
        let mut out = String::from_str("took ");
        let t = took.to_string();
        out.append(t.as_str());
        out.append("  ");
        out.append(status);
        out.append(" in ");
        let path = self.path(facts);
        out.append(path.as_str());
        Some(out)
    }
}

} // verus!
