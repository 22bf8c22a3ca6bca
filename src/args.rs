use vstd::prelude::*;
use crate::text::str_eq;

verus! {

/// Command-line options of the compiler driver.
#[derive(Debug, Clone)]
pub struct Args {
    /// Input source file.
    pub in_file: String,
    /// Output compiled file.
    pub out_file: String,
    /// Compile.
    pub compile: bool,
    /// Interpret.
    pub interpret: bool,
    /// Run the compiled executable.
    pub run: bool,
    /// Print nothing but the program's own output.
    pub quiet: bool,
    /// Include directories, searched in order before the defaults.
    pub search_dirs: Vec<String>,
    /// Disables the type checker.
    pub unsaf: bool,
    /// Optimisation level: `D` for debug, `0` for none.
    pub optimisation: String,
}

/// An optimisation level that is not known.
#[derive(Debug, Clone)]
pub struct UnknownOptLevel {
    pub level: String,
}

/// The level an optimisation option selects: `D` or `d` is 0 (debug),
/// `0` or the empty string is 1.
pub open spec fn opt_level_of(s: Seq<char>) -> Option<usize> {
    if s == "D"@ || s == "d"@ {
        Some(0)
    } else if s == "0"@ || s == ""@ {
        Some(1)
    } else {
        None
    }
}

impl Args {
    /// The optimisation level, or the unknown level given.
    pub fn get_opt_level(&self) -> (r: Result<usize, UnknownOptLevel>)
        ensures
            r is Ok <==> opt_level_of(self.optimisation@) is Some,
            r matches Ok(v) ==> opt_level_of(self.optimisation@) == Some(v),
            r matches Err(e) ==> e.level@ == self.optimisation@,
    {
        let o = self.optimisation.as_str();
        if str_eq(o, "D") || str_eq(o, "d") {
            Ok(0)
        } else if str_eq(o, "0") || str_eq(o, "") {
            Ok(1)
        } else {
            Err(UnknownOptLevel { level: self.optimisation.clone() })
        }
    }
}

/// The directory searched after those given on the command line.
pub const DEFAULT_SEARCH_DIR: &'static str = "./include";

/// Where a file named by a path that is not relative is looked for, in
/// order: the directories given, then the default one.
pub fn search_path(args: &Args) -> (r: Vec<String>)
    ensures
        r@.len() == args.search_dirs@.len() + 1,
        forall|i: int| 0 <= i < args.search_dirs@.len() ==> #[trigger] r@[i] == args.search_dirs@[i],
        r@[args.search_dirs@.len() as int]@ == DEFAULT_SEARCH_DIR@,
{
    let mut out: Vec<String> = Vec::new();
    let mut i: usize = 0;
    while i < args.search_dirs.len()
        invariant
            i <= args.search_dirs@.len(),
            out@.len() == i,
            forall|k: int| 0 <= k < i ==> #[trigger] out@[k] == args.search_dirs@[k],
        decreases args.search_dirs.len() - i,
    {
        out.push(args.search_dirs[i].clone());
        i = i + 1;
    }
    out.push(String::from_str(DEFAULT_SEARCH_DIR));
    out
}

/// The files a compilation writes: the executable, the object file and
/// the assembly.
#[derive(Debug, Clone)]
pub struct Folders {
    pub of_c: String,
    pub of_o: String,
    pub of_a: String,
}

} // verus!
