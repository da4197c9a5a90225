//! Server options read from command-line arguments.

use vstd::prelude::*;

use crate::text::same_text;

verus! {

/// Whether some argument is exactly `flag`.
pub open spec fn has_flag(args: Seq<String>, flag: Seq<char>) -> bool {
    exists|i: int| 0 <= i < args.len() && (#[trigger] args[i])@ == flag
}

/// Settings of a server.
pub struct Options {
    pub root_path: String,
    pub name: String,
    pub address: String,
    pub port: u16,
    pub debug: bool,
    pub allow_trace: bool,
    pub directory_indexes: Vec<String>,
}

impl Options {
    /// The default settings, with `--debug` and `--allow-trace` switched on
    /// where an argument names them.
    pub fn from_args(args: Vec<String>) -> (r: Options)
        ensures
            r.root_path@ == "."@,
            r.name@ == "Simpleton HTTP Server"@,
            r.address@ == "127.0.0.1"@,
            r.port == 3000,
            r.debug == has_flag(args@, "--debug"@),
            r.allow_trace == has_flag(args@, "--allow-trace"@),
            r.directory_indexes@.map_values(|s: String| s@) == seq!["index.htm"@, "index.html"@],
    {
        let mut debug = false;
        let mut allow_trace = false;
        let mut i: usize = 0;
        while i < args.len()
            invariant
                i <= args.len(),
                debug == has_flag(args@.take(i as int), "--debug"@),
                allow_trace == has_flag(args@.take(i as int), "--allow-trace"@),
            decreases args.len() - i,
        {
            let ghost before = args@.take(i as int);
            if same_text(args[i].as_str(), "--debug") {
                debug = true;
            }
            if same_text(args[i].as_str(), "--allow-trace") {
                allow_trace = true;
            }
            proof {
                let after = args@.take(i + 1);
                assert(after[i as int] == args@[i as int]);
                assert forall|j: int| 0 <= j < i implies after[j] == before[j] by {}
                if has_flag(after, "--debug"@) && !debug {
                    let j = choose|j: int| 0 <= j < after.len() && (#[trigger] after[j])@ == "--debug"@;
                    assert(before[j] == after[j]);
                }
                if has_flag(before, "--debug"@) {
                    let j = choose|j: int| 0 <= j < before.len() && (#[trigger] before[j])@ == "--debug"@;
                    assert(before[j] == after[j]);
                }
                if has_flag(after, "--allow-trace"@) && !allow_trace {
                    let j = choose|j: int|
                        0 <= j < after.len() && (#[trigger] after[j])@ == "--allow-trace"@;
                    assert(before[j] == after[j]);
                }
                if has_flag(before, "--allow-trace"@) {
                    let j = choose|j: int|
                        0 <= j < before.len() && (#[trigger] before[j])@ == "--allow-trace"@;
                    assert(before[j] == after[j]);
                }
            }
            i = i + 1;
        }
        proof {
            assert(args@.take(args.len() as int) =~= args@);
        }
        let indexes = vec![String::from_str("index.htm"), String::from_str("index.html")];
        proof {
            assert(indexes@.map_values(|s: String| s@) =~= seq!["index.htm"@, "index.html"@]);
        }
        Options {
            root_path: String::from_str("."),
            name: String::from_str("Simpleton HTTP Server"),
            address: String::from_str("127.0.0.1"),
            port: 3000,
            debug,
            allow_trace,
            directory_indexes: indexes,
        }
    }
}

} // verus!
