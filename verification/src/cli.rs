//! The command line, as read by the program.
//!
//! Besides the options, a `Cli` records three facts about the environment
//! that the program gathers when it reads the command line: whether the
//! positional filter names an existing path, whether `NO_COLOR` is set, and
//! whether standard output is a terminal.

use vstd::prelude::*;

verus! {

/// `jgrep [OPTIONS] FILTER [FILE...]`
#[derive(Debug)]
pub struct Cli {
    pub command: Option<Command>,
    pub recursive: bool,
    pub files_with_matches: bool,
    pub count: bool,
    pub slurp: bool,
    pub null_input: bool,
    pub from_file: Option<String>,
    pub pretty: bool,
    pub path_filter: Option<String>,
    pub where_filters: Vec<String>,
    pub no_color: bool,
    pub color_level: bool,
    pub color_level_field: Option<String>,
    pub filter: Option<String>,
    pub files: Vec<String>,
    /// The positional filter names an existing file or directory.
    pub filter_is_path: bool,
    /// The `NO_COLOR` environment variable is set.
    pub no_color_env: bool,
    /// Standard output is a terminal.
    pub stdout_is_terminal: bool,
}

/// Subcommands.
#[derive(Debug)]
pub enum Command {
    Explore(ExploreArgs),
    Completion { shell: String },
}

/// `jgrep explore [OPTIONS] [FILE]`
#[derive(Debug)]
pub struct ExploreArgs {
    pub input: Option<String>,
    pub filter: Option<String>,
    pub pretty: bool,
    pub path_filter: Option<String>,
    pub where_filters: Vec<String>,
    pub no_color: bool,
    pub color_level: bool,
    pub color_level_field: Option<String>,
    pub print: bool,
    pub max_input_bytes: usize,
    pub max_schema_documents: usize,
    pub max_preview_results: usize,
    pub max_schema_depth: usize,
}

/// Clones an optional string.
pub fn clone_opt_string(o: &Option<String>) -> (r: Option<String>)
    ensures
        r == *o,
        crate::input::opt_string_view(r) == crate::input::opt_string_view(*o),
{
    match o {
        Some(s) => Some(s.clone()),
        None => None,
    }
}

impl Cli {
    /// The filter text given on the command line, if any: `None` with
    /// `-f`; otherwise the positional filter, or `.` when it is missing or
    /// names an existing path.
    pub open spec fn filter_expression_spec(&self) -> Option<Seq<char>> {
        if self.from_file is Some {
            None
        } else {
            match self.filter {
                Some(c) => if !self.filter_is_path {
                    Some(c@)
                } else {
                    Some("."@)
                },
                None => Some("."@),
            }
        }
    }

    pub fn filter_expression(&self) -> (r: Option<String>)
        ensures
            crate::input::opt_string_view(r) == self.filter_expression_spec(),
    {
        if self.from_file.is_some() {
            return None;
        }
        match &self.filter {
            Some(candidate) => {
                if !self.filter_is_path {
                    Some(candidate.clone())
                } else {
                    Some(".".to_owned())
                }
            },
            None => Some(".".to_owned()),
        }
    }

    /// The positional filter names an existing path.
    pub open spec fn filter_is_existing_path_spec(&self) -> bool {
        self.filter is Some && self.filter_is_path
    }

    pub fn filter_is_existing_path(&self) -> (r: bool)
        ensures
            r == self.filter_is_existing_path_spec(),
    {
        self.filter.is_some() && self.filter_is_path
    }

    /// The files to read: the positional filter comes first when it is in
    /// fact a path (or when `-f` supplies the filter), then the files.
    pub open spec fn input_paths_spec(&self) -> Seq<Seq<char>> {
        let lead: Seq<Seq<char>> = if (self.from_file is Some || self.filter_is_existing_path_spec())
            && self.filter is Some {
            seq![self.filter->Some_0@]
        } else {
            Seq::empty()
        };
        lead + self.files.deep_view()
    }

    pub fn input_paths(&self) -> (r: Vec<String>)
        ensures
            r.deep_view() == self.input_paths_spec(),
    {
        let mut paths: Vec<String> = Vec::new();
        if self.from_file.is_some() || self.filter_is_existing_path() {
            if let Some(filter_position) = &self.filter {
                paths.push(filter_position.clone());
            }
        }
        let ghost lead = paths@;
        let n0 = paths.len();
        let mut i: usize = 0;
        while i < self.files.len()
            invariant
                i <= self.files.len(),
                n0 == lead.len(),
                paths@.len() == n0 + i,
                forall|k: int| 0 <= k < n0 ==> #[trigger] paths@[k] == lead[k],
                forall|k: int| 0 <= k < i ==> #[trigger] paths@[n0 + k]@ == self.files@[k]@,
            decreases self.files.len() - i,
        {
            paths.push(self.files[i].clone());
            i = i + 1;
        }
        proof {
            let lead_dv: Seq<Seq<char>> = if (self.from_file is Some
                || self.filter_is_existing_path_spec()) && self.filter is Some {
                seq![self.filter->Some_0@]
            } else {
                Seq::empty()
            };
            assert(lead.len() == lead_dv.len());
            assert forall|k: int| 0 <= k < paths@.len() implies #[trigger] paths.deep_view()[k] == (
            lead_dv + self.files.deep_view())[k] by {
                if k < n0 {
                    assert(paths@[k] == lead[k]);
                } else {
                    assert(paths@[n0 + (k - n0)]@ == self.files@[k - n0]@);
                }
            }
            assert(paths.deep_view() =~= self.input_paths_spec());
        }
        paths
    }

    /// JSON syntax colouring: standard output is a terminal and colour is
    /// not disabled by `--no-color` or `NO_COLOR`.
    pub open spec fn use_json_color_spec(&self) -> bool {
        !(self.no_color || self.no_color_env) && self.stdout_is_terminal
    }

    pub fn use_json_color(&self) -> (r: bool)
        ensures
            r == self.use_json_color_spec(),
    {
        if self.no_color || self.no_color_env {
            return false;
        }
        self.stdout_is_terminal
    }

    /// Log-level colouring: requested by `--color-level` and not disabled by
    /// `--no-color` or `NO_COLOR`.
    pub open spec fn use_level_color_spec(&self) -> bool {
        self.color_level && !self.no_color && !self.no_color_env
    }

    pub fn use_level_color(&self) -> (r: bool)
        ensures
            r == self.use_level_color_spec(),
    {
        self.color_level && !self.no_color && !self.no_color_env
    }
}

} // verus!
